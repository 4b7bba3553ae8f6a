//! Push classification: given the local branch tip, the proposal's current
//! patch chain, and what the VCS answered about ancestry, decide what a push
//! does — nothing, publish patches, or demand a force push — and build the
//! tags of the patch events a publication sends.

use vstd::prelude::*;

use crate::events::{
    get_commit_id_from_patch, get_parent_commit_from_patch, patch_commit_view,
    patch_parent_commit_view, Event, EventView,
};
use crate::repo_ref::RepoRef;
use crate::strings::str_eq;

verus! {

/// Options of the push command.
pub struct SubCommandArgs {
    /// Publish a proposal revision that replaces the whole patch set.
    pub force: bool,
    /// Do not ask for a cover letter when force pushing.
    pub no_cover_letter: bool,
}

/// The commits on either side of the merge base of the proposal tip and the
/// branch tip, as the VCS reports them.
pub struct AheadBehind {
    /// Commits only the local branch has, newest first.
    pub ahead: Vec<String>,
    /// Commits only the proposal has, newest first.
    pub behind: Vec<String>,
}

/// What the VCS answered about the proposal tip and the local branch tip.
pub struct GitAncestry {
    /// The two sides of the merge base, or nothing when the two commits
    /// share no ancestor.
    pub ahead_behind: Option<AheadBehind>,
    /// Whether the proposal's base commit is an ancestor of the branch tip.
    pub base_is_ancestor_of_tip: bool,
}

/// What a push of a branch tied to a proposal does.
pub enum PushOutcome {
    /// The proposal already ends at the branch tip.
    UpToDate,
    /// The proposal carries patches past the branch tip.
    LocalBehindProposal,
    /// The proposal has commits the branch lacks; rebase or force.
    LocalDiverged { behind: usize },
    /// No shared ancestor, but the proposal's base still underlies the
    /// branch: local amendments need a force push.
    AmendmentsRequireForce,
    /// No shared ancestor and the base is gone: a rebase needs a force push.
    RebaseRequiresForce,
    /// Publish one patch event per listed commit, oldest last.
    PublishPatches { ahead: Vec<String> },
}

/// The class of a push, by kind alone.
#[derive(Clone, Copy, PartialEq, Eq, Structural, Debug)]
pub enum PushCase {
    UpToDate,
    LocalBehindProposal,
    LocalDiverged,
    AmendmentsRequireForce,
    RebaseRequiresForce,
    PublishPatches,
}

/// Classify a push: in order, the branch tip already being the chain tip;
/// the branch tip being a parent inside the chain; no shared ancestor,
/// split by whether the proposal base still underlies the branch; the
/// proposal holding commits the branch lacks; and otherwise publication of
/// the commits the branch is ahead by.
pub open spec fn push_case_of(
    ch: Seq<EventView>,
    branch_tip: Seq<char>,
    anc: GitAncestry,
) -> PushCase {
    if patch_commit_view(ch[0]) == Some(branch_tip) {
        PushCase::UpToDate
    } else if exists|i: int|
        0 <= i < ch.len() && #[trigger] patch_parent_commit_view(ch[i]) == Some(branch_tip) {
        PushCase::LocalBehindProposal
    } else if anc.ahead_behind is None {
        if anc.base_is_ancestor_of_tip {
            PushCase::AmendmentsRequireForce
        } else {
            PushCase::RebaseRequiresForce
        }
    } else if anc.ahead_behind.unwrap().behind.deep_view().len() > 0 {
        PushCase::LocalDiverged
    } else {
        PushCase::PublishPatches
    }
}

fn chain_has_parent(chain: &Vec<Event>, branch_tip: &String) -> (r: bool)
    ensures
        r == exists|i: int|
            0 <= i < chain.deep_view().len() && #[trigger] patch_parent_commit_view(
                chain.deep_view()[i],
            ) == Some(branch_tip@),
{
    let ghost ch = chain.deep_view();
    let n = chain.len();
    let mut i: usize = 0;
    while i < n
        invariant
            i <= n,
            n == chain@.len(),
            ch == chain.deep_view(),
            forall|k: int|
                0 <= k < i ==> #[trigger] patch_parent_commit_view(ch[k]) != Some(branch_tip@),
        decreases n - i,
    {
        assert(ch[i as int] == chain@[i as int]@);
        let parent = get_parent_commit_from_patch(&chain[i]);
        if let Some(p) = parent {
            if str_eq(p.as_str(), branch_tip.as_str()) {
                assert(patch_parent_commit_view(ch[i as int]) == Some(branch_tip@));
                return true;
            }
        }
        i += 1;
    }
    false
}

/// Decide what a push of `branch_tip` does to the proposal whose current
/// chain is `chain` (tip first), given the VCS's ancestry answer for the
/// chain's tip commit against the branch tip.
pub fn push_update(chain: &Vec<Event>, branch_tip: &String, ancestry: GitAncestry) -> (r:
    PushOutcome)
    requires
        chain@.len() >= 1,
    ensures
        ({
            let c = push_case_of(chain.deep_view(), branch_tip@, ancestry);
            &&& (r is UpToDate <==> c == PushCase::UpToDate)
            &&& (r is LocalBehindProposal <==> c == PushCase::LocalBehindProposal)
            &&& (r is LocalDiverged <==> c == PushCase::LocalDiverged)
            &&& (r is AmendmentsRequireForce <==> c == PushCase::AmendmentsRequireForce)
            &&& (r is RebaseRequiresForce <==> c == PushCase::RebaseRequiresForce)
            &&& (r is PublishPatches <==> c == PushCase::PublishPatches)
            &&& (r matches PushOutcome::LocalDiverged { behind } ==> behind
                == ancestry.ahead_behind.unwrap().behind.deep_view().len())
            &&& (r matches PushOutcome::PublishPatches { ahead } ==> ahead.deep_view()
                == ancestry.ahead_behind.unwrap().ahead.deep_view())
        }),
{
    let ghost ch = chain.deep_view();
    assert(ch[0] == chain@[0]@);
    let tip_commit = get_commit_id_from_patch(&chain[0]);
    let at_tip = match &tip_commit {
        Some(c) => str_eq(c.as_str(), branch_tip.as_str()),
        None => false,
    };
    if at_tip {
        return PushOutcome::UpToDate;
    }
    assert(patch_commit_view(ch[0]) != Some(branch_tip@));
    if chain_has_parent(chain, branch_tip) {
        return PushOutcome::LocalBehindProposal;
    }
    match ancestry.ahead_behind {
        None => {
            if ancestry.base_is_ancestor_of_tip {
                PushOutcome::AmendmentsRequireForce
            } else {
                PushOutcome::RebaseRequiresForce
            }
        },
        Some(ab) => {
            if ab.behind.len() > 0 {
                PushOutcome::LocalDiverged { behind: ab.behind.len() }
            } else {
                PushOutcome::PublishPatches { ahead: ab.ahead }
            }
        },
    }
}

/// Push classification is exhaustive: every combination of chain, branch
/// tip and ancestry answer falls in one of the six outcome classes — and,
/// the class being one value of an enumeration, in exactly one.
pub proof fn lemma_push_classification_exhaustive(
    ch: Seq<EventView>,
    branch_tip: Seq<char>,
    anc: GitAncestry,
)
    ensures
        push_case_of(ch, branch_tip, anc) is UpToDate || push_case_of(ch, branch_tip, anc)
            is LocalBehindProposal || push_case_of(ch, branch_tip, anc) is LocalDiverged
            || push_case_of(ch, branch_tip, anc) is AmendmentsRequireForce || push_case_of(
            ch,
            branch_tip,
            anc,
        ) is RebaseRequiresForce || push_case_of(ch, branch_tip, anc) is PublishPatches,
{
}

/// The tags of one patch event to publish: the repository's coordinates,
/// the proposal root reference where the patch belongs to an existing
/// proposal, the previous patch event's id so publication order is
/// reconstructible, and the commit and its parent.
pub fn patch_event_tags(
    repo_ref: &RepoRef,
    root_id: &Option<String>,
    prev_patch_id: &Option<String>,
    commit: &String,
    parent_commit: &String,
) -> (r: Vec<Vec<String>>)
    ensures
        ({
            let coords = repo_ref.maintainers@.len();
            let roots: int = if root_id is Some {
                1int
            } else {
                0int
            };
            let prevs: int = if prev_patch_id is Some {
                1int
            } else {
                0int
            };
            &&& r.deep_view().len() == coords + roots + prevs + 2
            &&& forall|i: int|
                0 <= i < coords ==> #[trigger] r.deep_view()[i] == seq![
                    "a"@,
                    crate::repo_ref::coordinate_string(
                        crate::repo_ref::CoordinateView {
                            kind: crate::events::REPO_REF_KIND,
                            public_key: repo_ref.maintainers.deep_view()[i],
                            identifier: repo_ref.identifier@,
                        },
                    ),
                ]
            &&& (root_id matches Some(rid) ==> r.deep_view()[coords as int] == seq![
                "e"@,
                rid@,
                ""@,
                "root"@,
            ])
            &&& (prev_patch_id matches Some(pid) ==> r.deep_view()[coords + roots - 1 + 1]
                == seq!["e"@, pid@, ""@, "reply"@])
            &&& r.deep_view()[coords + roots + prevs] == seq!["commit"@, commit@]
            &&& r.deep_view()[coords + roots + prevs + 1] == seq!["parent-commit"@, parent_commit@]
        }),
{
    let coord_strings = repo_ref.coordinate_strings();
    let ghost csdv = coord_strings.deep_view();
    let mut r: Vec<Vec<String>> = Vec::new();
    let n = coord_strings.len();
    let mut i: usize = 0;
    while i < n
        invariant
            i <= n,
            n == coord_strings@.len(),
            coord_strings.deep_view() == csdv,
            r@.len() == i,
            forall|k: int|
                0 <= k < i ==> #[trigger] r.deep_view()[k] == seq!["a"@, csdv[k]],
        decreases n - i,
    {
        let ghost prev = r.deep_view();
        let mut tag: Vec<String> = Vec::new();
        let mut name = String::new();
        name.append("a");
        tag.push(name);
        tag.push(coord_strings[i].clone());
        proof {
            assert(tag.deep_view() =~= seq!["a"@, csdv[i as int]]);
        }
        r.push(tag);
        proof {
            assert forall|k: int| 0 <= k < i + 1 implies #[trigger] r.deep_view()[k] == seq![
                "a"@,
                csdv[k],
            ] by {
                if k < i {
                    assert(r.deep_view()[k] == prev[k]);
                } else {
                    assert(r.deep_view()[k] =~= seq!["a"@, csdv[k]]);
                }
            }
        }
        i += 1;
    }
    if let Some(rid) = root_id {
        let ghost prev = r.deep_view();
        let mut tag: Vec<String> = Vec::new();
        let mut name = String::new();
        name.append("e");
        tag.push(name);
        tag.push(rid.clone());
        let marker = String::new();
        tag.push(marker);
        let mut word = String::new();
        word.append("root");
        tag.push(word);
        proof {
            reveal_strlit("");
            assert(marker@ =~= ""@);
            assert(tag.deep_view() =~= seq!["e"@, rid@, ""@, "root"@]);
        }
        r.push(tag);
        proof {
            assert forall|k: int| 0 <= k < r@.len() implies #[trigger] r.deep_view()[k]
                == prev.push(seq!["e"@, rid@, ""@, "root"@])[k] by {
                if k < prev.len() {
                    assert(r.deep_view()[k] == prev[k]);
                } else {
                    assert(r.deep_view()[k] =~= seq!["e"@, rid@, ""@, "root"@]);
                }
            }
            assert(r.deep_view() =~= prev.push(seq!["e"@, rid@, ""@, "root"@]));
        }
    }
    if let Some(pid) = prev_patch_id {
        let ghost prev = r.deep_view();
        let mut tag: Vec<String> = Vec::new();
        let mut name = String::new();
        name.append("e");
        tag.push(name);
        tag.push(pid.clone());
        let marker = String::new();
        tag.push(marker);
        let mut word = String::new();
        word.append("reply");
        tag.push(word);
        proof {
            reveal_strlit("");
            assert(marker@ =~= ""@);
            assert(tag.deep_view() =~= seq!["e"@, pid@, ""@, "reply"@]);
        }
        r.push(tag);
        proof {
            assert forall|k: int| 0 <= k < r@.len() implies #[trigger] r.deep_view()[k]
                == prev.push(seq!["e"@, pid@, ""@, "reply"@])[k] by {
                if k < prev.len() {
                    assert(r.deep_view()[k] == prev[k]);
                } else {
                    assert(r.deep_view()[k] =~= seq!["e"@, pid@, ""@, "reply"@]);
                }
            }
            assert(r.deep_view() =~= prev.push(seq!["e"@, pid@, ""@, "reply"@]));
        }
    }
    {
        let ghost prev = r.deep_view();
        let mut tag: Vec<String> = Vec::new();
        let mut name = String::new();
        name.append("commit");
        tag.push(name);
        tag.push(commit.clone());
        proof {
            assert(tag.deep_view() =~= seq!["commit"@, commit@]);
        }
        r.push(tag);
        proof {
            assert forall|k: int| 0 <= k < r@.len() implies #[trigger] r.deep_view()[k]
                == prev.push(seq!["commit"@, commit@])[k] by {
                if k < prev.len() {
                    assert(r.deep_view()[k] == prev[k]);
                } else {
                    assert(r.deep_view()[k] =~= seq!["commit"@, commit@]);
                }
            }
            assert(r.deep_view() =~= prev.push(seq!["commit"@, commit@]));
        }
    }
    {
        let ghost prev = r.deep_view();
        let mut tag: Vec<String> = Vec::new();
        let mut name = String::new();
        name.append("parent-commit");
        tag.push(name);
        tag.push(parent_commit.clone());
        proof {
            assert(tag.deep_view() =~= seq!["parent-commit"@, parent_commit@]);
        }
        r.push(tag);
        proof {
            assert forall|k: int| 0 <= k < r@.len() implies #[trigger] r.deep_view()[k]
                == prev.push(seq!["parent-commit"@, parent_commit@])[k] by {
                if k < prev.len() {
                    assert(r.deep_view()[k] == prev[k]);
                } else {
                    assert(r.deep_view()[k] =~= seq!["parent-commit"@, parent_commit@]);
                }
            }
            assert(r.deep_view() =~= prev.push(seq!["parent-commit"@, parent_commit@]));
        }
    }
    r
}

} // verus!
