//! Proposals: patch chains rooted at a patch-set root event, their
//! reconstruction from cached patch events, the open-proposal listing, and
//! the branch names proposals are advertised under.

use vstd::pervasive::VecAdditionalExecFns;
use vstd::prelude::*;

use crate::cache::{proposal_is_open, EventCache};
use crate::events::{
    event_is_patch_set_root, event_is_revision_root, get_commit_id_from_patch,
    get_parent_commit_from_patch, is_patch_set_root, is_revision_root, patch_commit_view,
    patch_parent_commit_view, tag_value, tag_value_view, Event, EventView, PATCH_KIND,
    STATUS_OPEN_KIND,
};
use crate::filters::{filter_matches, matches_any_filter, Filter};
use crate::repo_ref::{
    count_trues, lemma_count_trues_bound, lemma_count_trues_update, lemma_count_trues_zero,
    lemma_filter_element_in, RepoRef,
};
use crate::strings::{has_prefix, str_eq, str_starts_with};

verus! {

/// A proposal could not be read back from its patch events.
#[derive(Clone, Copy, PartialEq, Eq, Structural, Debug)]
pub enum ProposalError {
    /// The patch events do not form a chain with a tip.
    Inconsistent,
}

/// One proposal as listed: its root event and its patch chain, tip first.
pub struct Proposal {
    pub root: Event,
    pub patches: Vec<Event>,
}

/// The mathematical shape of a proposal.
pub struct ProposalView {
    pub root: EventView,
    pub patches: Seq<EventView>,
}

impl View for Proposal {
    type V = ProposalView;

    open spec fn view(&self) -> ProposalView {
        ProposalView { root: self.root@, patches: self.patches.deep_view() }
    }
}

impl DeepView for Proposal {
    type V = ProposalView;

    open spec fn deep_view(&self) -> ProposalView {
        self.view()
    }
}

/// Consecutive chain elements link: each patch's parent commit is the next
/// (older) patch's commit.
pub open spec fn chain_linked(chain: Seq<EventView>) -> bool {
    forall|i: int|
        0 <= i < chain.len() - 1 ==> (#[trigger] patch_parent_commit_view(chain[i])) is Some
            && patch_commit_view(chain[i + 1]) == patch_parent_commit_view(chain[i])
}

/// The patch at `i` is a tip: no patch in the set names its commit as a
/// parent.
pub open spec fn is_chain_tip(ps: Seq<EventView>, i: int) -> bool {
    &&& 0 <= i < ps.len()
    &&& forall|j: int|
        0 <= j < ps.len() ==> !((patch_commit_view(ps[i]) is Some)
            && #[trigger] patch_parent_commit_view(ps[j]) == patch_commit_view(ps[i]))
}

/// A correctly reconstructed chain over the patch set `ps`: at least one
/// element, headed by the newest tip of the set, each link's parent commit
/// being the next element's commit, every element drawn from the set, and
/// maximal — any patch that could extend the walk is already in the chain.
pub open spec fn valid_chain_of(ps: Seq<EventView>, ch: Seq<EventView>) -> bool {
    &&& ch.len() >= 1
    &&& exists|t: int| is_chain_tip(ps, t) && ps[t] == ch[0]
    &&& forall|t: int| is_chain_tip(ps, t) ==> ps[t].created_at <= ch[0].created_at
    &&& chain_linked(ch)
    &&& forall|k: int| 0 <= k < ch.len() ==> ps.contains(#[trigger] ch[k])
    &&& match patch_parent_commit_view(ch[ch.len() - 1]) {
        Some(p) => forall|j: int|
            0 <= j < ps.len() && #[trigger] patch_commit_view(ps[j]) == Some(p) ==> ch.contains(
                ps[j],
            ),
        None => true,
    }
}

fn is_tip_at(patches: &Vec<Event>, i: usize) -> (r: bool)
    requires
        i < patches@.len(),
    ensures
        r == is_chain_tip(patches.deep_view(), i as int),
{
    let ghost ps = patches.deep_view();
    assert(ps[i as int] == patches@[i as int]@);
    let commit = get_commit_id_from_patch(&patches[i]);
    let commit = match commit {
        None => {
            return true;
        },
        Some(c) => c,
    };
    let n = patches.len();
    let mut j: usize = 0;
    while j < n
        invariant
            j <= n,
            n == patches@.len(),
            ps == patches.deep_view(),
            i < n,
            patch_commit_view(ps[i as int]) == Some(commit@),
            forall|k: int|
                0 <= k < j ==> #[trigger] patch_parent_commit_view(ps[k]) != patch_commit_view(
                    ps[i as int],
                ),
        decreases n - j,
    {
        assert(ps[j as int] == patches@[j as int]@);
        let parent = get_parent_commit_from_patch(&patches[j]);
        if let Some(p) = parent {
            if str_eq(p.as_str(), commit.as_str()) {
                assert(patch_parent_commit_view(ps[j as int]) == patch_commit_view(ps[i as int]));
                return false;
            }
        }
        j += 1;
    }
    true
}

/// Reconstruct a proposal's patch chain: start at the newest tip — the
/// patch no other patch names as its parent — and walk `parent-commit`
/// links backward, each step to a patch not walked yet. The result is the
/// chain, tip first. Fails exactly when the set has no tip, the empty set
/// included.
pub fn get_most_recent_patch_with_ancestors(patches: Vec<Event>) -> (r: Result<
    Vec<Event>,
    ProposalError,
>)
    ensures
        match r {
            Ok(chain) => valid_chain_of(patches.deep_view(), chain.deep_view()),
            Err(err) => err == ProposalError::Inconsistent && !exists|t: int|
                is_chain_tip(patches.deep_view(), t),
        },
{
    let ghost ps = patches.deep_view();
    let n = patches.len();

    // The newest tip.
    let mut best: Option<usize> = None;
    let mut i: usize = 0;
    while i < n
        invariant
            i <= n,
            n == patches@.len(),
            ps == patches.deep_view(),
            best is None ==> forall|t: int| 0 <= t < i ==> !is_chain_tip(ps, t),
            best matches Some(b) ==> b < n && is_chain_tip(ps, b as int) && forall|t: int|
                0 <= t < i && is_chain_tip(ps, t) ==> ps[t].created_at <= ps[b as int].created_at,
        decreases n - i,
    {
        if is_tip_at(&patches, i) {
            match best {
                None => {
                    best = Some(i);
                },
                Some(b) => {
                    if patches[i].created_at > patches[b].created_at {
                        best = Some(i);
                    }
                },
            }
        }
        proof {
            assert(ps[i as int] == patches@[i as int]@);
        }
        i += 1;
    }
    let tip = match best {
        Some(t) => t,
        None => {
            assert(forall|t: int| !(0 <= t < ps.len()) ==> !is_chain_tip(ps, t));
            return Err(ProposalError::Inconsistent);
        },
    };

    // Walk parent links backward, never revisiting a patch.
    let mut used: Vec<bool> = Vec::new();
    let mut fill: usize = 0;
    while fill < n
        invariant
            fill <= n,
            used@.len() == fill,
            forall|k: int| 0 <= k < fill ==> !used@[k],
        decreases n - fill,
    {
        used.push(false);
        fill += 1;
    }
    proof {
        lemma_count_trues_zero(used@);
        lemma_count_trues_update(used@, tip as int);
        lemma_count_trues_bound(used@.update(tip as int, true));
    }
    used.set(tip, true);
    let mut used_count: usize = 1;
    let mut chain: Vec<Event> = Vec::new();
    chain.push(patches[tip].duplicate());
    let mut parent: Option<String> = get_parent_commit_from_patch(&patches[tip]);
    proof {
        assert(ps[tip as int] == patches@[tip as int]@);
        assert(chain.deep_view() =~= seq![ps[tip as int]]);
    }
    loop
        invariant
            n == patches@.len(),
            ps == patches.deep_view(),
            used@.len() == n,
            used_count == count_trues(used@),
            1 <= used_count <= n,
            chain@.len() == used_count,
            tip < n,
            is_chain_tip(ps, tip as int),
            chain.deep_view()[0] == ps[tip as int],
            chain_linked(chain.deep_view()),
            parent.deep_view() == patch_parent_commit_view(
                chain.deep_view()[chain@.len() - 1],
            ),
            forall|k: int|
                0 <= k < chain@.len() ==> ps.contains(#[trigger] chain.deep_view()[k]),
            forall|j: int|
                0 <= j < n && used@[j] ==> chain.deep_view().contains(#[trigger] ps[j]),
        ensures
            used@.len() == n,
            chain@.len() >= 1,
            chain.deep_view()[0] == ps[tip as int],
            chain_linked(chain.deep_view()),
            forall|k: int|
                0 <= k < chain@.len() ==> ps.contains(#[trigger] chain.deep_view()[k]),
            match patch_parent_commit_view(chain.deep_view()[chain@.len() - 1]) {
                Some(p) => forall|j: int|
                    0 <= j < ps.len() && #[trigger] patch_commit_view(ps[j]) == Some(p)
                        ==> chain.deep_view().contains(ps[j]),
                None => true,
            },
        decreases n - used_count,
    {
        let p: String = match &parent {
            Some(x) => x.clone(),
            None => {
                break;
            },
        };
        // The next link: an unwalked patch whose commit is `p`.
        let mut found: Option<usize> = None;
        let mut j: usize = 0;
        while j < n && found.is_none()
            invariant
                j <= n,
                n == patches@.len(),
                ps == patches.deep_view(),
                used@.len() == n,
                found is None ==> forall|k: int|
                    0 <= k < j && !used@[k] ==> #[trigger] patch_commit_view(ps[k]) != Some(p@),
                found matches Some(f) ==> f < n && !used@[f as int] && patch_commit_view(
                    ps[f as int],
                ) == Some(p@),
            decreases n - j, (if found is None {
                1int
            } else {
                0int
            }),
        {
            assert(ps[j as int] == patches@[j as int]@);
            let mut hit = false;
            if !used[j] {
                let cj = get_commit_id_from_patch(&patches[j]);
                if let Some(c) = cj {
                    if str_eq(c.as_str(), p.as_str()) {
                        hit = true;
                    }
                }
            }
            if hit {
                found = Some(j);
            } else {
                j += 1;
            }
        }
        let j = match found {
            Some(j) => j,
            None => {
                proof {
                    assert(parent.deep_view() == Some(p@));
                }
                break;
            },
        };
        proof {
            lemma_count_trues_update(used@, j as int);
            lemma_count_trues_bound(used@.update(j as int, true));
        }
        let ghost used_before = used@;
        let ghost chain_before = chain.deep_view();
        used.set(j, true);
        used_count += 1;
        let next = patches[j].duplicate();
        chain.push(next);
        parent = get_parent_commit_from_patch(&patches[j]);
        proof {
            assert(ps[j as int] == patches@[j as int]@);
            assert forall|k: int| 0 <= k < chain@.len() implies #[trigger] chain.deep_view()[k]
                == chain_before.push(ps[j as int])[k] by {
                if k < chain_before.len() {
                    assert(chain.deep_view()[k] == chain_before[k]);
                } else {
                    assert(chain.deep_view()[k] == ps[j as int]);
                }
            }
            assert(chain.deep_view() =~= chain_before.push(ps[j as int]));
            assert(chain.deep_view()[chain_before.len() as int] == ps[j as int]);
            assert forall|y: EventView| chain_before.contains(y) implies chain.deep_view()
                .contains(y) by {
                let ii = choose|ii: int| 0 <= ii < chain_before.len() && chain_before[ii] == y;
                assert(chain.deep_view()[ii] == y);
            }
            assert forall|jj: int| 0 <= jj < n && used@[jj] implies chain.deep_view().contains(
                #[trigger] ps[jj],
            ) by {
                if jj != j {
                    assert(used_before[jj]);
                }
            }
            assert(patch_parent_commit_view(chain_before[chain_before.len() - 1]) == Some(p@));
            assert(patch_commit_view(ps[j as int]) == Some(p@));
            assert forall|k: int| 0 <= k < chain@.len() - 1 implies (
            #[trigger] patch_parent_commit_view(chain.deep_view()[k])) is Some
                && patch_commit_view(chain.deep_view()[k + 1]) == patch_parent_commit_view(
                chain.deep_view()[k],
            ) by {
                if k < chain_before.len() - 1 {
                    assert(chain.deep_view()[k] == chain_before[k]);
                    assert(chain.deep_view()[k + 1] == chain_before[k + 1]);
                    assert(patch_parent_commit_view(chain_before[k]) is Some
                        && patch_commit_view(chain_before[k + 1]) == patch_parent_commit_view(
                        chain_before[k],
                    ));
                } else {
                    assert(chain.deep_view()[k] == chain_before[chain_before.len() - 1]);
                    assert(chain.deep_view()[k + 1] == ps[j as int]);
                }
            }
        }
    }
    proof {
        assert(exists|t: int| is_chain_tip(ps, t) && ps[t] == chain.deep_view()[0]) by {
            assert(is_chain_tip(ps, tip as int) && ps[tip as int] == chain.deep_view()[0]);
        }
        assert forall|t: int| is_chain_tip(ps, t) implies ps[t].created_at <= chain
            .deep_view()[0].created_at by {
            assert(ps[tip as int] == chain.deep_view()[0]);
        }
    }
    Ok(chain)
}


/// The author's chosen branch name for a proposal: its `branch-name` tag,
/// or `untitled` without one.
pub open spec fn chosen_branch_name(e: EventView) -> Seq<char> {
    match tag_value_view(e.tags, "branch-name"@) {
        Some(n) => n,
        None => "untitled"@,
    }
}

/// The first eight characters of an event id, or all of a shorter one.
pub open spec fn short_event_id(e: EventView) -> Seq<char> {
    if e.id.len() >= 8 {
        e.id.subrange(0, 8)
    } else {
        e.id
    }
}

/// The public branch name a proposal is advertised under to everyone but
/// its author: the chosen name under a `pr/` prefix, suffixed with the
/// short root id so that names cannot collide across proposals.
pub open spec fn public_branch_name(e: EventView) -> Seq<char> {
    "pr/"@ + chosen_branch_name(e) + "("@ + short_event_id(e) + ")"@
}

/// The branch name a viewer sees: the author sees the chosen name, anyone
/// else the public derived name.
pub open spec fn branch_name_for(e: EventView, viewer: Option<Seq<char>>) -> Seq<char> {
    if viewer == Some(e.pubkey) {
        chosen_branch_name(e)
    } else {
        public_branch_name(e)
    }
}

/// The author's chosen branch name of a proposal root.
pub fn event_to_branch_name(e: &Event) -> (r: String)
    ensures
        r@ == chosen_branch_name(e@),
{
    match tag_value(e, "branch-name") {
        Some(n) => n,
        None => {
            let mut s = String::new();
            s.append("untitled");
            s
        },
    }
}

/// The public derived branch name of a proposal root.
pub fn event_to_public_branch_name(e: &Event) -> (r: String)
    ensures
        r@ == public_branch_name(e@),
{
    let mut s = String::new();
    s.append("pr/");
    let chosen = event_to_branch_name(e);
    s.append(chosen.as_str());
    s.append("(");
    let idlen = e.id.as_str().unicode_len();
    if idlen >= 8 {
        let short = e.id.as_str().substring_char(0, 8);
        s.append(short);
    } else {
        s.append(e.id.as_str());
    }
    s.append(")");
    s
}

/// The branch name under which `viewer` sees the proposal rooted at `e`.
pub fn branch_name_for_viewer(e: &Event, viewer: &Option<String>) -> (r: String)
    ensures
        r@ == branch_name_for(e@, viewer.deep_view()),
{
    match viewer {
        Some(v) => {
            if str_eq(v.as_str(), e.pubkey.as_str()) {
                event_to_branch_name(e)
            } else {
                event_to_public_branch_name(e)
            }
        },
        None => event_to_public_branch_name(e),
    }
}

/// Branch-name roundtrip: a proposal is advertised to its own author under
/// the author's chosen branch name and to every other viewer under the
/// derived public name; whenever the two names differ, the chosen name is
/// shown exactly to the author.
pub proof fn lemma_branch_name_roundtrip(e: EventView, viewer: Option<Seq<char>>)
    ensures
        viewer == Some(e.pubkey) ==> branch_name_for(e, viewer) == chosen_branch_name(e),
        viewer != Some(e.pubkey) ==> branch_name_for(e, viewer) == public_branch_name(e),
        chosen_branch_name(e) != public_branch_name(e) ==> ((branch_name_for(e, viewer)
            == chosen_branch_name(e)) <==> viewer == Some(e.pubkey)),
{
}

/// A reference string with its branch prefix removed; any other reference
/// stays as it is.
pub open spec fn stripped_ref(refstr: Seq<char>) -> Seq<char> {
    if has_prefix(refstr, "refs/heads/"@) {
        refstr.skip("refs/heads/"@.len() as int)
    } else {
        refstr
    }
}

/// Remove the branch prefix from a reference string.
pub fn strip_ref_prefix(refstr: &str) -> (r: String)
    ensures
        r@ == stripped_ref(refstr@),
{
    proof {
        reveal_strlit("refs/heads/");
    }
    if str_starts_with(refstr, "refs/heads/") {
        let len = refstr.unicode_len();
        let rest = refstr.substring_char(11, len);
        let mut s = String::new();
        s.append(rest);
        assert(refstr@.subrange(11, refstr@.len() as int) =~= refstr@.skip(11));
        s
    } else {
        let mut s = String::new();
        s.append(refstr);
        s
    }
}

/// Find the open proposal a reference string names: the first whose branch
/// name, as this viewer sees it, equals the reference with its branch
/// prefix removed.
pub fn find_proposal_and_patches_by_branch_name(
    refstr: &str,
    open_proposals: &Vec<Proposal>,
    current_user: &Option<String>,
) -> (r: Option<usize>)
    ensures
        match r {
            Some(i) => {
                &&& i < open_proposals@.len()
                &&& branch_name_for(open_proposals.deep_view()[i as int].root, current_user.deep_view())
                    == stripped_ref(refstr@)
                &&& forall|k: int|
                    0 <= k < i ==> branch_name_for(
                        #[trigger] open_proposals.deep_view()[k].root,
                        current_user.deep_view(),
                    ) != stripped_ref(refstr@)
            },
            None => forall|k: int|
                0 <= k < open_proposals@.len() ==> branch_name_for(
                    #[trigger] open_proposals.deep_view()[k].root,
                    current_user.deep_view(),
                ) != stripped_ref(refstr@),
        },
{
    let target = strip_ref_prefix(refstr);
    let n = open_proposals.len();
    let mut i: usize = 0;
    while i < n
        invariant
            i <= n,
            n == open_proposals@.len(),
            target@ == stripped_ref(refstr@),
            forall|k: int|
                0 <= k < i ==> branch_name_for(
                    #[trigger] open_proposals.deep_view()[k].root,
                    current_user.deep_view(),
                ) != stripped_ref(refstr@),
        decreases n - i,
    {
        assert(open_proposals.deep_view()[i as int] == open_proposals@[i as int]@);
        let name = branch_name_for_viewer(&open_proposals[i].root, current_user);
        if str_eq(name.as_str(), target.as_str()) {
            return Some(i);
        }
        i += 1;
    }
    None
}

/// The coordinates of a repository in wire form, one per maintainer.
pub open spec fn repo_coordinate_strings(rr: RepoRef) -> Seq<Seq<char>> {
    Seq::new(
        rr.maintainers.deep_view().len(),
        |i: int|
            crate::repo_ref::coordinate_string(
                crate::repo_ref::CoordinateView {
                    kind: crate::events::REPO_REF_KIND,
                    public_key: rr.maintainers.deep_view()[i],
                    identifier: rr.identifier@,
                },
            ),
    )
}

/// The event references the repository: one of its `a` tags carries one of
/// the repository's coordinates.
pub open spec fn references_repo(e: EventView, rr: RepoRef) -> bool {
    crate::strings::seqs_intersect(
        crate::events::tag_first_values(e.tags, "a"@),
        repo_coordinate_strings(rr),
    )
}

/// The patch events of one proposal.
pub open spec fn proposal_patch_pred(root_id: Seq<char>) -> spec_fn(EventView) -> bool {
    |e: EventView|
        e.kind == PATCH_KIND && crate::events::referenced_event_ids(e.tags).contains(root_id)
            && !is_patch_set_root(e)
}

/// The patch events of one proposal in a cache state: patch-kind events
/// referencing the root id that are not themselves patch-set roots.
pub open spec fn patches_of(c: Seq<EventView>, root_id: Seq<char>) -> Seq<EventView> {
    c.filter(proposal_patch_pred(root_id))
}

/// A root the listing must consider: a patch-set root that is not a
/// revision root, references the repository, and whose patch set has a tip
/// to reconstruct a chain from.
pub open spec fn listable_root(c: Seq<EventView>, rr: RepoRef, e: EventView) -> bool {
    &&& is_patch_set_root(e)
    &&& !is_revision_root(e)
    &&& references_repo(e, rr)
    &&& exists|t: int| is_chain_tip(patches_of(c, e.id), t)
}

proof fn lemma_filter_compose(
    c: Seq<EventView>,
    p1: spec_fn(EventView) -> bool,
    p2: spec_fn(EventView) -> bool,
    p12: spec_fn(EventView) -> bool,
)
    requires
        forall|x: EventView| #[trigger] p12(x) == (p1(x) && p2(x)),
    ensures
        c.filter(p1).filter(p2) == c.filter(p12),
    decreases c.len(),
{
    reveal(Seq::filter);
    if c.len() == 0 {
        assert(c.filter(p1).len() == 0);
    } else {
        lemma_filter_compose(c.drop_last(), p1, p2, p12);
        let sub1 = c.drop_last().filter(p1);
        if p1(c.last()) {
            assert(c.filter(p1) == sub1.push(c.last()));
            assert(sub1.push(c.last()).drop_last() =~= sub1);
            assert(sub1.push(c.last()).last() == c.last());
            assert(sub1.push(c.last()).len() > 0);
            assert(c.filter(p1).filter(p2) == if p2(c.last()) {
                sub1.filter(p2).push(c.last())
            } else {
                sub1.filter(p2)
            });
        } else {
            assert(c.filter(p1) == sub1);
        }
    }
}

/// The patch events of the proposal rooted at `root_id`, in cache order.
pub fn collect_proposal_patches(cache: &EventCache, root_id: &String) -> (r: Vec<Event>)
    ensures
        (r.deep_view() == patches_of(cache@, root_id@)),
{
    let mut kinds: Vec<u16> = Vec::new();
    kinds.push(PATCH_KIND);
    let mut event_refs: Vec<String> = Vec::new();
    event_refs.push(root_id.clone());
    let mut f = Filter::any();
    f.kinds = kinds;
    f.event_refs = event_refs;
    let mut filters: Vec<Filter> = Vec::new();
    filters.push(f);
    let ghost p1 = |ev: EventView| matches_any_filter(filters.deep_view(), ev);
    proof {
        assert forall|e: EventView| #[trigger] p1(e) == (e.kind == PATCH_KIND
            && crate::events::referenced_event_ids(e.tags).contains(root_id@)) by {
            let fv = filters.deep_view()[0];
            assert(fv.kinds =~= seq![PATCH_KIND]);
            assert(fv.event_refs =~= seq![root_id@]);
            assert(fv.authors.len() == 0 && fv.identifiers.len() == 0 && fv.coord_refs.len()
                == 0);
            if filter_matches(fv, e) {
                assert(fv.kinds.contains(e.kind));
                assert(e.kind == PATCH_KIND);
                let x = choose|x: Seq<char>|
                    crate::events::referenced_event_ids(e.tags).contains(x) && fv.event_refs
                        .contains(x);
                assert(x == root_id@);
            }
            if e.kind == PATCH_KIND && crate::events::referenced_event_ids(e.tags).contains(
                root_id@,
            ) {
                assert(fv.kinds[0] == e.kind);
                assert(fv.kinds.contains(e.kind));
                assert(fv.event_refs[0] == root_id@);
                assert(fv.event_refs.contains(root_id@));
                assert(crate::strings::seqs_intersect(
                    crate::events::referenced_event_ids(e.tags),
                    fv.event_refs,
                ));
                assert(filter_matches(fv, e));
                assert(matches_any_filter(filters.deep_view(), e));
            }
        }
    }
    let q = cache.query(&filters);
    let ghost p2 = |e: EventView| !is_patch_set_root(e);
    let ghost qdv = q.deep_view();
    let n = q.len();
    let mut r: Vec<Event> = Vec::new();
    let mut i: usize = 0;
    proof {
        reveal(Seq::filter);
        assert(qdv.take(0) =~= Seq::<EventView>::empty());
    }
    while i < n
        invariant
            i <= n,
            n == q@.len(),
            q.deep_view() == qdv,
            r.deep_view() == qdv.take(i as int).filter(p2),
            p2 == (|e: EventView| !is_patch_set_root(e)),
        decreases n - i,
    {
        let ghost prefix = qdv.take(i as int);
        let ghost prev = r.deep_view();
        assert(qdv[i as int] == q@[i as int]@);
        if !event_is_patch_set_root(&q[i]) {
            let x = q[i].duplicate();
            r.push(x);
            proof {
                assert forall|k: int| 0 <= k < r@.len() implies #[trigger] r.deep_view()[k]
                    == prev.push(x@)[k] by {
                    if k < prev.len() {
                        assert(r.deep_view()[k] == prev[k]);
                    } else {
                        assert(r.deep_view()[k] == x@);
                    }
                }
                assert(r.deep_view() =~= prev.push(x@));
            }
        }
        proof {
            assert(qdv.take(i + 1) =~= prefix + seq![qdv[i as int]]);
            Seq::<EventView>::filter_distributes_over_add(prefix, seq![qdv[i as int]], p2);
            reveal(Seq::filter);
            assert(seq![qdv[i as int]].drop_last() =~= Seq::<EventView>::empty());
            assert(Seq::<EventView>::empty().filter(p2) =~= Seq::<EventView>::empty());
            assert(seq![qdv[i as int]].filter(p2) =~= if p2(qdv[i as int]) {
                seq![qdv[i as int]]
            } else {
                Seq::<EventView>::empty()
            });
            assert(r.deep_view() =~= qdv.take(i + 1).filter(p2));
        }
        i += 1;
    }
    proof {
        assert(qdv.take(n as int) =~= qdv);
        lemma_filter_compose(cache@, p1, p2, proposal_patch_pred(root_id@));
        assert(r.deep_view() == cache@.filter(p1).filter(p2));
    }
    r
}


/// One listed entry is sound: a listable root from the cache with a
/// correctly reconstructed chain over its patch set.
pub open spec fn listed_entry_ok(c: Seq<EventView>, rr: RepoRef, p: ProposalView) -> bool {
    &&& c.contains(p.root)
    &&& listable_root(c, rr, p.root)
    &&& valid_chain_of(patches_of(c, p.root.id), p.patches)
}

fn collect_proposals(cache: &EventCache, repo_ref: &RepoRef, only_open: bool) -> (r: Vec<
    Proposal,
>)
    ensures
        forall|k: int|
            0 <= k < r@.len() ==> listed_entry_ok(cache@, *repo_ref, #[trigger] r.deep_view()[k])
                && (only_open ==> proposal_is_open(cache@, r.deep_view()[k].root.id)),
        forall|ei: int|
            0 <= ei < cache@.len() && listable_root(cache@, *repo_ref, #[trigger] cache@[ei]) && (
            only_open ==> proposal_is_open(cache@, cache@[ei].id)) ==> exists|k: int|
                0 <= k < r.deep_view().len() && r.deep_view()[k].root == cache@[ei],
{
    let cs = repo_ref.coordinate_strings();
    proof {
        assert forall|i: int| 0 <= i < cs.deep_view().len() implies #[trigger] cs.deep_view()[i]
            == repo_coordinate_strings(*repo_ref)[i] by {}
        assert(cs.deep_view() =~= repo_coordinate_strings(*repo_ref));
    }
    if cs.len() == 0 {
        let r: Vec<Proposal> = Vec::new();
        proof {
            assert forall|ei: int|
                0 <= ei < cache@.len() && listable_root(cache@, *repo_ref, #[trigger] cache@[ei])
                    && (only_open ==> proposal_is_open(cache@, cache@[ei].id)) implies false by {
                let x = choose|x: Seq<char>|
                    crate::events::tag_first_values(cache@[ei].tags, "a"@).contains(x)
                        && repo_coordinate_strings(*repo_ref).contains(x);
            }
        }
        return r;
    }
    let mut kinds: Vec<u16> = Vec::new();
    kinds.push(PATCH_KIND);
    let mut f = Filter::any();
    f.kinds = kinds;
    f.coord_refs = cs;
    let mut filters: Vec<Filter> = Vec::new();
    filters.push(f);
    let ghost rpred = |ev: EventView| matches_any_filter(filters.deep_view(), ev);
    proof {
        assert forall|e: EventView| #[trigger] rpred(e) == (e.kind == PATCH_KIND
            && references_repo(e, *repo_ref)) by {
            let fv = filters.deep_view()[0];
            assert(fv.kinds =~= seq![PATCH_KIND]);
            assert(fv.coord_refs =~= repo_coordinate_strings(*repo_ref));
            assert(fv.authors.len() == 0 && fv.identifiers.len() == 0 && fv.event_refs.len()
                == 0);
            assert(fv.coord_refs.len() > 0);
            if filter_matches(fv, e) {
                assert(fv.kinds.contains(e.kind));
                assert(e.kind == PATCH_KIND);
            }
            if e.kind == PATCH_KIND && references_repo(e, *repo_ref) {
                assert(fv.kinds[0] == e.kind);
                assert(fv.kinds.contains(e.kind));
                assert(filter_matches(fv, e));
                assert(matches_any_filter(filters.deep_view(), e));
            }
        }
    }
    let roots_all = cache.query(&filters);
    let ghost rdv = roots_all.deep_view();
    let n = roots_all.len();
    let mut r: Vec<Proposal> = Vec::new();
    let mut ri: usize = 0;
    while ri < n
        invariant
            ri <= n,
            n == roots_all@.len(),
            roots_all.deep_view() == rdv,
            rdv == cache@.filter(rpred),
            rpred == (|ev: EventView| matches_any_filter(filters.deep_view(), ev)),
            forall|e: EventView| #[trigger] rpred(e) == (e.kind == PATCH_KIND
                && references_repo(e, *repo_ref)),
            forall|k: int|
                0 <= k < r@.len() ==> listed_entry_ok(
                    cache@,
                    *repo_ref,
                    #[trigger] r.deep_view()[k],
                ) && (only_open ==> proposal_is_open(cache@, r.deep_view()[k].root.id)),
            forall|x: int|
                0 <= x < ri && listable_root(cache@, *repo_ref, #[trigger] rdv[x]) && (only_open
                    ==> proposal_is_open(cache@, rdv[x].id)) ==> exists|k: int|
                    0 <= k < r.deep_view().len() && r.deep_view()[k].root == rdv[x],
        decreases n - ri,
    {
        let ghost prev = r.deep_view();
        assert(rdv[ri as int] == roots_all@[ri as int]@);
        let mut take = event_is_patch_set_root(&roots_all[ri]) && !event_is_revision_root(
            &roots_all[ri],
        );
        if take && only_open {
            let status = cache.latest_status_kind(roots_all[ri].id.as_str());
            take = status == STATUS_OPEN_KIND;
        }
        if take {
            let patches = collect_proposal_patches(cache, &roots_all[ri].id);
            let ghost pdv = patches.deep_view();
            proof {
                assert(pdv == patches_of(cache@, rdv[ri as int].id));
            }
            match get_most_recent_patch_with_ancestors(patches) {
                Ok(chain) => {
                    let entry = Proposal { root: roots_all[ri].duplicate(), patches: chain };
                    let ghost ev = entry@;
                    r.push(entry);
                    proof {
                        lemma_filter_element_in(cache@, rpred, ri as int);
                        Seq::lemma_filter_pred(cache@, rpred, ri as int);
                        assert(cache@.contains(rdv[ri as int]));
                        assert(ev.root == rdv[ri as int]);
                        assert(rpred(rdv[ri as int]));
                        assert(references_repo(ev.root, *repo_ref));
                        assert(valid_chain_of(patches_of(cache@, ev.root.id), ev.patches));
                        assert(listed_entry_ok(cache@, *repo_ref, ev));
                        assert forall|k: int| 0 <= k < r@.len() implies #[trigger] r.deep_view()[k]
                            == prev.push(ev)[k] by {
                            if k < prev.len() {
                                assert(r.deep_view()[k] == prev[k]);
                            } else {
                                assert(r.deep_view()[k] == ev);
                            }
                        }
                        assert(r.deep_view() =~= prev.push(ev));
                        assert(r.deep_view()[prev.len() as int] == ev);
                    }
                },
                Err(_) => {
                    proof {
                        assert(!exists|t: int|
                            is_chain_tip(patches_of(cache@, rdv[ri as int].id), t));
                        assert(!listable_root(cache@, *repo_ref, rdv[ri as int]));
                    }
                },
            }
        }
        proof {
            assert forall|x: int|
                0 <= x < ri + 1 && listable_root(cache@, *repo_ref, #[trigger] rdv[x]) && (
            only_open ==> proposal_is_open(cache@, rdv[x].id)) implies exists|k: int|
                0 <= k < r.deep_view().len() && r.deep_view()[k].root == rdv[x] by {
                if x < ri {
                    let k = choose|k: int| 0 <= k < prev.len() && prev[k].root == rdv[x];
                    assert(r.deep_view()[k].root == rdv[x]);
                } else {
                    assert(r.deep_view()[r.deep_view().len() - 1].root == rdv[x]);
                }
            }
        }
        ri += 1;
    }
    proof {
        assert forall|ei: int|
            0 <= ei < cache@.len() && listable_root(cache@, *repo_ref, #[trigger] cache@[ei]) && (
        only_open ==> proposal_is_open(cache@, cache@[ei].id)) implies exists|k: int|
            0 <= k < r.deep_view().len() && r.deep_view()[k].root == cache@[ei] by {
            assert(rpred(cache@[ei]));
            Seq::lemma_filter_contains(cache@, rpred, ei);
            let x = choose|x: int| 0 <= x < rdv.len() && rdv[x] == cache@[ei];
            assert(listable_root(cache@, *repo_ref, rdv[x]));
        }
    }
    r
}

/// List the open proposals of the repository: every cached patch-set root
/// that references the repository, is no revision root, whose latest status
/// is open, and whose patch set forms a chain — each with that chain,
/// tip first.
pub fn get_open_proposals(cache: &EventCache, repo_ref: &RepoRef) -> (r: Vec<Proposal>)
    ensures
        forall|k: int|
            0 <= k < r@.len() ==> listed_entry_ok(cache@, *repo_ref, #[trigger] r.deep_view()[k])
                && proposal_is_open(cache@, r.deep_view()[k].root.id),
        forall|ei: int|
            0 <= ei < cache@.len() && listable_root(cache@, *repo_ref, #[trigger] cache@[ei])
                && proposal_is_open(cache@, cache@[ei].id) ==> exists|k: int|
                0 <= k < r.deep_view().len() && r.deep_view()[k].root == cache@[ei],
{
    collect_proposals(cache, repo_ref, true)
}

/// List every proposal of the repository, open or not, each with its
/// reconstructed chain, tip first.
pub fn get_all_proposals(cache: &EventCache, repo_ref: &RepoRef) -> (r: Vec<Proposal>)
    ensures
        forall|k: int|
            0 <= k < r@.len() ==> listed_entry_ok(cache@, *repo_ref, #[trigger] r.deep_view()[k]),
        forall|ei: int|
            0 <= ei < cache@.len() && listable_root(cache@, *repo_ref, #[trigger] cache@[ei])
                ==> exists|k: int|
                0 <= k < r.deep_view().len() && r.deep_view()[k].root == cache@[ei],
{
    collect_proposals(cache, repo_ref, false)
}

} // verus!
