//! The verified engine against real signed events: cache integrity and
//! idempotency, repository resolution, proposal listing, the fetch fixpoint,
//! and push classification.

use ngit::cache::{save_event_in_cache, CacheError, EventCache};
use ngit::events::{
    event_is_patch_set_root, event_is_revision_root, get_commit_id_from_patch, status_kinds,
    tag_value, Event, PATCH_KIND, REPO_REF_KIND, STATUS_CLOSED_KIND, STATUS_OPEN_KIND,
};
use ngit::fetch::{
    consolidate_fetch_reports, create_relays_request, get_dedup_events, get_fetch_filters,
    get_filter_repo_events, AnnouncementUpdate, FetchReport, RelayFetchState,
};
use ngit::filters::Filter;
use ngit::proposals::{
    branch_name_for_viewer, event_to_branch_name, event_to_public_branch_name,
    find_proposal_and_patches_by_branch_name, get_all_proposals, get_most_recent_patch_with_ancestors,
    get_open_proposals, strip_ref_prefix,
};
use ngit::push::{patch_event_tags, push_update, AheadBehind, GitAncestry, PushOutcome};
use ngit::repo_ref::{get_repo_ref_from_cache, repo_ref_from_event, Coordinate, RepoRefError, ResolveError};

use nostr::{EventBuilder, Keys, Kind, Tag, Timestamp};

fn to_model(ev: &nostr::Event) -> Event {
    Event {
        id: ev.id().to_hex(),
        pubkey: ev.author().to_hex(),
        created_at: ev.created_at().as_u64(),
        kind: ev.kind().as_u16(),
        tags: ev.tags().iter().map(|t| t.as_vec().to_vec()).collect(),
        content: ev.content().to_string(),
        sig: ev.signature().to_string(),
    }
}

fn signed(keys: &Keys, kind: u16, content: &str, tags: &[Vec<&str>], at: u64) -> Event {
    let tags: Vec<Tag> = tags.iter().map(|t| Tag::parse(t).unwrap()).collect();
    let ev = EventBuilder::new(Kind::Custom(kind), content, tags)
        .custom_created_at(Timestamp::from(at))
        .to_event(keys)
        .unwrap();
    to_model(&ev)
}

fn coord_string(pubkey: &str, identifier: &str) -> String {
    format!("{}:{}:{}", REPO_REF_KIND, pubkey, identifier)
}

fn announcement(keys: &Keys, identifier: &str, maintainers: &[&str], relays: &[&str], at: u64) -> Event {
    let mut tags: Vec<Vec<&str>> = vec![vec!["d", identifier]];
    let mut m = vec!["maintainers"];
    m.extend_from_slice(maintainers);
    tags.push(m);
    let mut r = vec!["relays"];
    r.extend_from_slice(relays);
    tags.push(r);
    tags.push(vec!["clone", "https://example.org/demo.git"]);
    signed(keys, REPO_REF_KIND, "", &tags, at)
}

#[test]
fn cache_accepts_only_verified_events() {
    // An event whose signature does not verify is refused: tampering with
    // the content after signing breaks the id and signature check.
    let keys = Keys::generate();
    let good = signed(&keys, 1, "hello", &[], 100);
    let mut bad = signed(&keys, 1, "hello", &[], 100);
    bad.content = "tampered".to_string();
    let mut cache = EventCache::new();
    assert_eq!(save_event_in_cache(&mut cache, &good), Ok(true));
    assert_eq!(save_event_in_cache(&mut cache, &bad), Err(CacheError::Integrity));
    assert_eq!(cache.len(), 1);
}

#[test]
fn cache_save_is_idempotent() {
    let keys = Keys::generate();
    let ev = signed(&keys, 1, "hello", &[], 100);
    let mut cache = EventCache::new();
    assert_eq!(save_event_in_cache(&mut cache, &ev), Ok(true));
    assert_eq!(save_event_in_cache(&mut cache, &ev), Ok(false));
    assert_eq!(cache.len(), 1);
}

#[test]
fn cache_queries_in_time_order() {
    let keys = Keys::generate();
    let late = signed(&keys, 1, "late", &[], 300);
    let early = signed(&keys, 1, "early", &[], 200);
    let mut cache = EventCache::new();
    cache.save_event(&late).unwrap();
    cache.save_event(&early).unwrap();
    let mut f = Filter::any();
    f.kinds = vec![1];
    let events = cache.query(&vec![f]);
    assert_eq!(events.len(), 2);
    assert_eq!(events[0].content, "early");
    assert_eq!(events[1].content, "late");
}

#[test]
fn latest_status_wins() {
    let author = Keys::generate();
    let root = signed(&author, PATCH_KIND, "root", &[vec!["t", "root"]], 100);
    let opened = signed(&author, STATUS_OPEN_KIND, "", &[vec!["e", &root.id]], 200);
    let closed = signed(&author, STATUS_CLOSED_KIND, "", &[vec!["e", &root.id]], 300);
    let mut cache = EventCache::new();
    cache.save_event(&root).unwrap();
    cache.save_event(&opened).unwrap();
    assert_eq!(cache.latest_status_kind(&root.id), STATUS_OPEN_KIND);
    cache.save_event(&closed).unwrap();
    assert_eq!(cache.latest_status_kind(&root.id), STATUS_CLOSED_KIND);
    assert_eq!(status_kinds(), vec![1630u16, 1631, 1632, 1633]);
}

#[test]
fn announcement_parses_to_repo_ref() {
    let keys = Keys::generate();
    let other = Keys::generate().public_key().to_hex();
    let me = keys.public_key().to_hex();
    let ev = announcement(&keys, "demo", &[&other], &["wss://relay.example"], 100);
    let rr = repo_ref_from_event(&ev).unwrap();
    assert_eq!(rr.identifier, "demo");
    assert_eq!(rr.maintainers, vec![me, other]);
    assert_eq!(rr.relays, vec!["wss://relay.example".to_string()]);
    assert_eq!(rr.git_server_urls, vec!["https://example.org/demo.git".to_string()]);
}

#[test]
fn discovery_expands_maintainers() {
    // One cached announcement by X names Y as maintainer: resolving from the
    // seed X yields the maintainer set {X, Y}.
    let x = Keys::generate();
    let y = Keys::generate();
    let xk = x.public_key().to_hex();
    let yk = y.public_key().to_hex();
    let ev = announcement(&x, "demo", &[&yk], &["wss://relay.example"], 100);
    let mut local = EventCache::new();
    local.save_event(&ev).unwrap();
    let global = EventCache::new();
    let rr = get_repo_ref_from_cache(&local, &global, "demo", &vec![xk.clone()]).unwrap();
    assert!(rr.maintainers.contains(&xk));
    assert!(rr.maintainers.contains(&yk));
    assert_eq!(rr.identifier, "demo");
}

#[test]
fn resolution_fails_without_announcement() {
    let local = EventCache::new();
    let global = EventCache::new();
    let seed = Keys::generate().public_key().to_hex();
    let r = get_repo_ref_from_cache(&local, &global, "demo", &vec![seed]);
    assert!(matches!(r, Err(ResolveError::RepoNotFound)));
}

fn proposal_fixture() -> (Keys, EventCache, Event, Event, Event, String) {
    // A proposal rooted at P with two patches: p1 on the base, p2 on p1.
    let x = Keys::generate();
    let xk = x.public_key().to_hex();
    let ann = announcement(&x, "demo", &[], &[], 50);
    let coord = coord_string(&xk, "demo");
    let root = signed(
        &x,
        PATCH_KIND,
        "cover letter",
        &[vec!["t", "root"], vec!["a", &coord], vec!["branch-name", "feature"]],
        100,
    );
    let p1 = signed(
        &x,
        PATCH_KIND,
        "patch one",
        &[vec!["e", &root.id], vec!["a", &coord], vec!["commit", "c1"], vec![
            "parent-commit", "base",
        ]],
        110,
    );
    let p2 = signed(
        &x,
        PATCH_KIND,
        "patch two",
        &[vec!["e", &root.id], vec!["a", &coord], vec!["commit", "c2"], vec![
            "parent-commit", "c1",
        ]],
        120,
    );
    let mut cache = EventCache::new();
    cache.save_event(&ann).unwrap();
    cache.save_event(&root).unwrap();
    cache.save_event(&p1).unwrap();
    cache.save_event(&p2).unwrap();
    let root_id = root.id.clone();
    (x, cache, root, p1, p2, root_id)
}

#[test]
fn open_proposal_listing_reconstructs_chain() {
    let (x, cache, root, _p1, _p2, root_id) = proposal_fixture();
    let global = EventCache::new();
    let xk = x.public_key().to_hex();
    let rr = get_repo_ref_from_cache(&cache, &global, "demo", &vec![xk]).unwrap();
    let open = get_open_proposals(&cache, &rr);
    assert_eq!(open.len(), 1);
    assert_eq!(open[0].root.id, root_id);
    assert!(event_is_patch_set_root(&open[0].root));
    assert!(!event_is_revision_root(&root));
    // The chain comes tip first: p2 (commit c2) then p1 (commit c1).
    assert_eq!(open[0].patches.len(), 2);
    assert_eq!(get_commit_id_from_patch(&open[0].patches[0]), Some("c2".to_string()));
    assert_eq!(get_commit_id_from_patch(&open[0].patches[1]), Some("c1".to_string()));
    // The advertised reference resolves back to the proposal.
    let name = event_to_public_branch_name(&root);
    let refstr = format!("refs/heads/{}", name);
    let found = find_proposal_and_patches_by_branch_name(&refstr, &open, &None);
    assert_eq!(found, Some(0));
    let all = get_all_proposals(&cache, &rr);
    assert_eq!(all.len(), 1);
}

#[test]
fn closed_proposals_are_not_listed() {
    let (x, mut cache, _root, _p1, _p2, root_id) = proposal_fixture();
    let closed = signed(&x, STATUS_CLOSED_KIND, "", &[vec!["e", &root_id]], 200);
    cache.save_event(&closed).unwrap();
    let global = EventCache::new();
    let xk = x.public_key().to_hex();
    let rr = get_repo_ref_from_cache(&cache, &global, "demo", &vec![xk]).unwrap();
    let open = get_open_proposals(&cache, &rr);
    assert_eq!(open.len(), 0);
    let all = get_all_proposals(&cache, &rr);
    assert_eq!(all.len(), 1);
}

#[test]
fn branch_name_depends_on_viewer() {
    let (x, _cache, root, _p1, _p2, _root_id) = proposal_fixture();
    let xk = x.public_key().to_hex();
    let chosen = event_to_branch_name(&root);
    assert_eq!(chosen, "feature");
    let public = event_to_public_branch_name(&root);
    assert_eq!(public, format!("pr/feature({})", &root.id[..8]));
    assert_eq!(branch_name_for_viewer(&root, &Some(xk)), chosen);
    let viewer = Keys::generate().public_key().to_hex();
    assert_eq!(branch_name_for_viewer(&root, &Some(viewer)), public);
    assert_eq!(branch_name_for_viewer(&root, &None), public);
    assert_eq!(strip_ref_prefix("refs/heads/feature"), "feature");
    assert_eq!(strip_ref_prefix("HEAD"), "HEAD");
}

#[test]
fn chain_reconstruction_fails_on_cycle() {
    let x = Keys::generate();
    let a = signed(&x, PATCH_KIND, "a", &[vec!["commit", "c1"], vec!["parent-commit", "c2"]], 100);
    let b = signed(&x, PATCH_KIND, "b", &[vec!["commit", "c2"], vec!["parent-commit", "c1"]], 110);
    assert!(get_most_recent_patch_with_ancestors(vec![a, b]).is_err());
    assert!(get_most_recent_patch_with_ancestors(Vec::new()).is_err());
}

#[test]
fn push_ahead_publishes_patches() {
    // The branch tip c3 sits one commit past the proposal tip c2: the push
    // publishes one patch event for c3, tagged to the root and the previous
    // patch.
    let (x, cache, root, _p1, p2, root_id) = proposal_fixture();
    let global = EventCache::new();
    let xk = x.public_key().to_hex();
    let rr = get_repo_ref_from_cache(&cache, &global, "demo", &vec![xk]).unwrap();
    let open = get_open_proposals(&cache, &rr);
    let chain = &open[0].patches;
    let ancestry = GitAncestry {
        ahead_behind: Some(AheadBehind { ahead: vec!["c3".to_string()], behind: Vec::new() }),
        base_is_ancestor_of_tip: true,
    };
    let outcome = push_update(chain, &"c3".to_string(), ancestry);
    match outcome {
        PushOutcome::PublishPatches { ahead } => assert_eq!(ahead, vec!["c3".to_string()]),
        _ => panic!("expected publication"),
    }
    let tags = patch_event_tags(
        &rr,
        &Some(root_id.clone()),
        &Some(p2.id.clone()),
        &"c3".to_string(),
        &"c2".to_string(),
    );
    assert!(tags.contains(&vec!["e".to_string(), root_id, "".to_string(), "root".to_string()]));
    assert!(tags.contains(&vec!["e".to_string(), p2.id.clone(), "".to_string(), "reply".to_string()]));
    assert!(tags.contains(&vec!["commit".to_string(), "c3".to_string()]));
    assert!(tags.contains(&vec!["parent-commit".to_string(), "c2".to_string()]));
    assert_eq!(tag_value(&root, "branch-name"), Some("feature".to_string()));
}

#[test]
fn push_behind_proposal_publishes_nothing() {
    // The proposal tip c3 has the branch tip c2 as its parent: the branch is
    // behind the proposal and nothing is published.
    let x = Keys::generate();
    let p = signed(&x, PATCH_KIND, "p", &[vec!["commit", "c3"], vec!["parent-commit", "c2"]], 100);
    let chain = vec![p];
    let ancestry = GitAncestry { ahead_behind: None, base_is_ancestor_of_tip: false };
    let outcome = push_update(&chain, &"c2".to_string(), ancestry);
    assert!(matches!(outcome, PushOutcome::LocalBehindProposal));
}

#[test]
fn push_other_outcomes() {
    let x = Keys::generate();
    let p = signed(&x, PATCH_KIND, "p", &[vec!["commit", "c2"], vec!["parent-commit", "c1"]], 100);
    let chain = vec![p];
    let up_to_date = push_update(
        &chain,
        &"c2".to_string(),
        GitAncestry { ahead_behind: None, base_is_ancestor_of_tip: false },
    );
    assert!(matches!(up_to_date, PushOutcome::UpToDate));
    let diverged = push_update(
        &chain,
        &"c9".to_string(),
        GitAncestry {
            ahead_behind: Some(AheadBehind {
                ahead: vec!["c9".to_string()],
                behind: vec!["c2".to_string()],
            }),
            base_is_ancestor_of_tip: true,
        },
    );
    assert!(matches!(diverged, PushOutcome::LocalDiverged { behind: 1 }));
    let amend = push_update(
        &chain,
        &"c9".to_string(),
        GitAncestry { ahead_behind: None, base_is_ancestor_of_tip: true },
    );
    assert!(matches!(amend, PushOutcome::AmendmentsRequireForce));
    let rebase = push_update(
        &chain,
        &"c9".to_string(),
        GitAncestry { ahead_behind: None, base_is_ancestor_of_tip: false },
    );
    assert!(matches!(rebase, PushOutcome::RebaseRequiresForce));
}

#[test]
fn empty_fetch_reaches_fixpoint_with_empty_report() {
    // Two relays, empty stores, a seed coordinate: the fetch report stays
    // empty, the cache holds nothing, and a second round is not needed.
    let seed = Keys::generate().public_key().to_hex();
    let mut local = EventCache::new();
    let mut global = EventCache::new();
    let (relays, request) = create_relays_request(
        &local,
        &global,
        "demo",
        &vec![seed],
        &vec!["ws://localhost:8051".to_string(), "ws://localhost:8052".to_string()],
    );
    assert_eq!(relays.len(), 2);
    let mut reports: Vec<Result<FetchReport, String>> = Vec::new();
    for relay in relays {
        let mut state = RelayFetchState::begin(Some(relay), clone_request(&request));
        let filters = state.next_filters();
        assert!(filters.len() >= 1);
        // The relay has nothing: the round returns no events.
        state.ingest(&Vec::new(), &mut local, &mut global).unwrap();
        assert!(state.is_done());
        assert!(state.report.is_empty());
        reports.push(Ok(state.report));
    }
    let report = consolidate_fetch_reports(reports);
    assert!(report.is_empty());
    assert_eq!(report.summary(), "");
    assert_eq!(local.len(), 0);
    assert_eq!(global.len(), 0);
}

fn clone_request(r: &ngit::fetch::FetchRequest) -> ngit::fetch::FetchRequest {
    ngit::fetch::FetchRequest {
        relay_column_width: r.relay_column_width,
        repo_coordinates: r
            .repo_coordinates
            .iter()
            .map(|c| ngit::fetch::CoordinateState {
                coordinate: c.coordinate.duplicate(),
                last_timestamp: c.last_timestamp,
            })
            .collect(),
        proposals: r.proposals.clone(),
        contributor_profiles: r.contributor_profiles.clone(),
        existing_events: r.existing_events.clone(),
    }
}

#[test]
fn fetch_classifies_and_reaches_fixpoint() {
    // A relay holding one announcement with a second maintainer and one
    // proposal root: the first fetch reports them; fetching again against
    // the unchanged relay reports nothing.
    let x = Keys::generate();
    let xk = x.public_key().to_hex();
    let yk = Keys::generate().public_key().to_hex();
    let ann = announcement(&x, "demo", &[&yk], &[], 100);
    let coord = coord_string(&xk, "demo");
    let root = signed(&x, PATCH_KIND, "cover", &[vec!["t", "root"], vec!["a", &coord]], 110);
    let remote = vec![ann.duplicate(), root.duplicate()];

    let mut local = EventCache::new();
    let mut global = EventCache::new();
    let (_relays, request) =
        create_relays_request(&local, &global, "demo", &vec![xk.clone()], &Vec::new());
    let mut state = RelayFetchState::begin(None, request);
    state.ingest(&remote, &mut local, &mut global).unwrap();
    assert!(state.report.proposals.contains(&root.id));
    // The second maintainer named by the announcement is asked about in the
    // next round.
    assert!(!state.is_done());
    assert!(state.fresh_coordinates.iter().any(|c| c.public_key == yk));
    let round2 = state.next_filters();
    assert!(round2.len() >= 1);
    // The relay has nothing new for that round: the fixpoint is reached.
    state.ingest(&Vec::new(), &mut local, &mut global).unwrap();
    assert!(state.is_done());
    assert!(state.report.proposals.contains(&root.id));
    assert_eq!(local.len(), 2);
    assert_eq!(global.len(), 1);

    // The remote is unchanged: the next fetch starts from the refreshed
    // request and produces an empty report.
    let (_relays2, request2) =
        create_relays_request(&local, &global, "demo", &vec![xk], &Vec::new());
    let mut state2 = RelayFetchState::begin(None, request2);
    state2.ingest(&remote, &mut local, &mut global).unwrap();
    assert!(state2.is_done());
    assert!(state2.report.is_empty());
    assert_eq!(local.len(), 2);
}

#[test]
fn reserved_events_do_not_reopen_the_fixpoint() {
    // A relay that answers every round with the same two events: the first
    // round classifies them, the second round finds them cached and the
    // fetch ends — re-served events never grow the fresh sets again.
    let x = Keys::generate();
    let xk = x.public_key().to_hex();
    let yk = Keys::generate().public_key().to_hex();
    let ann = announcement(&x, "demo", &[&yk], &[], 100);
    let coord = coord_string(&xk, "demo");
    let root = signed(&x, PATCH_KIND, "cover", &[vec!["t", "root"], vec!["a", &coord]], 110);
    let remote = vec![ann.duplicate(), root.duplicate()];

    let mut local = EventCache::new();
    let mut global = EventCache::new();
    let (_relays, request) =
        create_relays_request(&local, &global, "demo", &vec![xk], &Vec::new());
    let mut state = RelayFetchState::begin(None, request);
    let mut rounds = 0usize;
    while !state.is_done() {
        assert!(rounds < 3, "the fixpoint fetch must terminate");
        state.ingest(&remote, &mut local, &mut global).unwrap();
        rounds += 1;
    }
    assert_eq!(rounds, 2);
    assert_eq!(local.len(), 2);
    assert!(state.report.proposals.contains(&root.id));
}

#[test]
fn report_summary_counts_and_pluralizes() {
    let mut report = FetchReport::empty(None);
    report.repo_coordinates.push(Coordinate {
        kind: REPO_REF_KIND,
        public_key: "k".to_string(),
        identifier: "demo".to_string(),
    });
    report.proposals.push("a".to_string());
    report.proposals.push("b".to_string());
    report.statuses.push("s".to_string());
    assert_eq!(report.summary(), "1 new maintainer, 2 proposals, 1 status");
    let mut two_statuses = FetchReport::empty(None);
    two_statuses.statuses.push("s1".to_string());
    two_statuses.statuses.push("s2".to_string());
    assert_eq!(two_statuses.summary(), "2 statuses");
}

#[test]
fn consolidation_unions_and_keeps_newest_update() {
    let c = Coordinate {
        kind: REPO_REF_KIND,
        public_key: "k".to_string(),
        identifier: "demo".to_string(),
    };
    let mut r1 = FetchReport::empty(Some("wss://a".to_string()));
    r1.proposals.push("p1".to_string());
    r1.updated_repo_announcements.push(AnnouncementUpdate { coordinate: c.duplicate(), timestamp: 100 });
    let mut r2 = FetchReport::empty(Some("wss://b".to_string()));
    r2.proposals.push("p1".to_string());
    r2.proposals.push("p2".to_string());
    r2.updated_repo_announcements.push(AnnouncementUpdate { coordinate: c.duplicate(), timestamp: 300 });
    let merged = consolidate_fetch_reports(vec![
        Ok(r1),
        Err("connection timeout".to_string()),
        Ok(r2),
    ]);
    assert!(merged.relay.is_none());
    assert_eq!(merged.proposals.len(), 2);
    assert_eq!(merged.updated_repo_announcements.len(), 1);
    assert_eq!(merged.updated_repo_announcements[0].timestamp, 300);
}

#[test]
fn dedup_keeps_one_event_per_id() {
    let keys = Keys::generate();
    let a = signed(&keys, 1, "a", &[], 100);
    let b = signed(&keys, 1, "b", &[], 110);
    let results = vec![
        Ok(vec![a.duplicate(), b.duplicate()]),
        Err("relay error".to_string()),
        Ok(vec![a.duplicate()]),
    ];
    let deduped = get_dedup_events(results);
    assert_eq!(deduped.len(), 2);
}

#[test]
fn fetch_filters_cover_known_state() {
    let c = Coordinate {
        kind: REPO_REF_KIND,
        public_key: "aabb".to_string(),
        identifier: "demo".to_string(),
    };
    let filters = get_fetch_filters(&vec![c.duplicate()], &vec!["rootid".to_string()], &Vec::new());
    assert_eq!(filters.len(), 3);
    let repo = get_filter_repo_events(&vec![c]);
    assert_eq!(repo.kinds, vec![REPO_REF_KIND]);
    assert_eq!(repo.identifiers, vec!["demo".to_string()]);
    assert_eq!(repo.authors, vec!["aabb".to_string()]);
}

#[test]
fn newest_announcement_is_authoritative() {
    let x = Keys::generate();
    let xk = x.public_key().to_hex();
    let old_ann = announcement(&x, "demo", &[], &["wss://old.example"], 100);
    let new_ann = announcement(&x, "demo", &[], &["wss://new.example"], 200);
    let mut local = EventCache::new();
    local.save_event(&old_ann).unwrap();
    local.save_event(&new_ann).unwrap();
    let global = EventCache::new();
    let rr = get_repo_ref_from_cache(&local, &global, "demo", &vec![xk]).unwrap();
    assert_eq!(rr.relays, vec!["wss://new.example".to_string()]);
}

#[test]
fn malformed_announcements_are_rejected() {
    let keys = Keys::generate();
    let wrong_kind = signed(&keys, PATCH_KIND, "", &[vec!["d", "demo"]], 100);
    assert!(matches!(repo_ref_from_event(&wrong_kind), Err(RepoRefError::WrongKind)));
    let no_identifier = signed(&keys, REPO_REF_KIND, "", &[vec!["relays", "wss://r"]], 100);
    assert!(matches!(repo_ref_from_event(&no_identifier), Err(RepoRefError::MissingIdentifier)));
}
