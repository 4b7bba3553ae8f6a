//! Transport selection and the authentication-aware fallthrough.

use ngit::transport::{
    error_might_be_authentication_related, fetch_or_list_error_is_not_authentication_failure,
    get_read_protocols_to_try, get_write_protocols_to_try, push_error_is_not_authentication_failure,
    transport_fallthrough_step, FallthroughStep, ServerProtocol, TransportError,
};
use ngit::list::{merge_server_refs, RemoteRef};
use ngit::urls::{CloneUrl, NostrUrlDecoded};

fn decoded(protocol: Option<ServerProtocol>) -> NostrUrlDecoded {
    NostrUrlDecoded {
        identifier: "demo".to_string(),
        author: None,
        relays: Vec::new(),
        protocol,
        server: None,
    }
}

fn clone_url(url: &str) -> CloneUrl {
    CloneUrl { url: url.to_string() }
}

#[test]
fn read_order_by_scheme() {
    let https = get_read_protocols_to_try(&clone_url("https://example.org/repo.git"), &decoded(None));
    assert_eq!(
        https,
        vec![ServerProtocol::UnauthHttps, ServerProtocol::Ssh, ServerProtocol::Https]
    );
    let http = get_read_protocols_to_try(&clone_url("http://example.org/repo.git"), &decoded(None));
    assert_eq!(http, vec![ServerProtocol::UnauthHttp, ServerProtocol::Ssh, ServerProtocol::Http]);
    let ftp = get_read_protocols_to_try(&clone_url("ftp://example.org/repo.git"), &decoded(None));
    assert_eq!(ftp, vec![ServerProtocol::Ftp, ServerProtocol::Ssh]);
    let fs = get_read_protocols_to_try(&clone_url("file:///srv/repo.git"), &decoded(None));
    assert_eq!(fs, vec![ServerProtocol::Filesystem]);
    let forced = get_read_protocols_to_try(
        &clone_url("https://example.org/repo.git"),
        &decoded(Some(ServerProtocol::Ssh)),
    );
    assert_eq!(forced, vec![ServerProtocol::Ssh]);
}

#[test]
fn write_order_by_scheme() {
    let https =
        get_write_protocols_to_try(&clone_url("https://example.org/repo.git"), &decoded(None));
    assert_eq!(https, vec![ServerProtocol::Ssh, ServerProtocol::Https]);
    let http = get_write_protocols_to_try(&clone_url("http://example.org/repo.git"), &decoded(None));
    assert_eq!(http, vec![ServerProtocol::Ssh, ServerProtocol::Http]);
    let ftp = get_write_protocols_to_try(&clone_url("ftp://example.org/repo.git"), &decoded(None));
    assert_eq!(ftp, vec![ServerProtocol::Ssh, ServerProtocol::Ftp]);
    let fs = get_write_protocols_to_try(&clone_url("/srv/repo.git"), &decoded(None));
    assert_eq!(fs, vec![ServerProtocol::Filesystem]);
}

#[test]
fn auth_classification_is_structural() {
    assert!(error_might_be_authentication_related(&TransportError::AuthRequired));
    assert!(error_might_be_authentication_related(&TransportError::HostKeyMismatch));
    assert!(error_might_be_authentication_related(&TransportError::NoKeysAvailable));
    assert!(error_might_be_authentication_related(&TransportError::PermissionDenied));
    assert!(error_might_be_authentication_related(&TransportError::RepoNotVisible));
    assert!(!error_might_be_authentication_related(&TransportError::Network(
        "connection reset".to_string()
    )));
    assert!(!error_might_be_authentication_related(&TransportError::Protocol(
        "bad line".to_string()
    )));
}

#[test]
fn auth_classification_by_substring_fallback() {
    let wrapped = TransportError::Wrapped("remote: all authentication attempts failed".to_string());
    assert!(error_might_be_authentication_related(&wrapped));
    assert!(!fetch_or_list_error_is_not_authentication_failure(&wrapped));
    assert!(!push_error_is_not_authentication_failure(&wrapped));
    let plain = TransportError::Wrapped("could not resolve host".to_string());
    assert!(!error_might_be_authentication_related(&plain));
    assert!(fetch_or_list_error_is_not_authentication_failure(&plain));
    let hostkey = TransportError::Wrapped("invalid or unknown remote ssh hostkey".to_string());
    assert!(error_might_be_authentication_related(&hostkey));
    let perm = TransportError::Wrapped("Permission to repo denied".to_string());
    assert!(error_might_be_authentication_related(&perm));
    let missing = TransportError::Wrapped("ERROR: Repository not found.".to_string());
    assert!(error_might_be_authentication_related(&missing));
    let nokeys = TransportError::Wrapped("no ssh keys found".to_string());
    assert!(error_might_be_authentication_related(&nokeys));
}

#[test]
fn fallthrough_scenario_https_read() {
    // An https read: the unauthenticated attempt fails with a transport
    // error, ssh then fails demanding authentication; the walk stops there
    // and the authenticated https candidate is never tried.
    let candidates =
        get_read_protocols_to_try(&clone_url("https://example.org/repo.git"), &decoded(None));
    let step1 = transport_fallthrough_step(
        &candidates,
        0,
        &TransportError::Network("tls handshake failed".to_string()),
        false,
    );
    assert_eq!(step1, FallthroughStep::TryNext { next: 1 });
    let step2 = transport_fallthrough_step(&candidates, 1, &TransportError::AuthRequired, false);
    assert_eq!(step2, FallthroughStep::Surface);
}

#[test]
fn fallthrough_exhausts_and_pins_ssh() {
    let candidates =
        get_write_protocols_to_try(&clone_url("https://example.org/repo.git"), &decoded(None));
    let last = candidates.len() - 1;
    let step = transport_fallthrough_step(
        &candidates,
        last,
        &TransportError::Network("timeout".to_string()),
        false,
    );
    assert_eq!(step, FallthroughStep::Exhausted);
    // After a successful ssh authentication a later failure surfaces rather
    // than falling forward to a weaker protocol.
    let pinned = transport_fallthrough_step(
        &candidates,
        0,
        &TransportError::Network("timeout".to_string()),
        true,
    );
    assert_eq!(pinned, FallthroughStep::Surface);
}

#[test]
fn server_ref_merge_first_wins_and_records_disagreement() {
    let remote_ref = |r: &str, o: &str| RemoteRef { refstr: r.to_string(), oid: o.to_string() };
    let lists = vec![
        vec![remote_ref("refs/heads/main", "aaa"), remote_ref("refs/heads/dev", "bbb")],
        vec![remote_ref("refs/heads/main", "zzz"), remote_ref("refs/heads/extra", "ccc")],
    ];
    let (merged, disagreements) = merge_server_refs(&lists);
    assert_eq!(merged.len(), 3);
    let oid_of = |r: &str| {
        merged
            .iter()
            .find(|x| x.refstr == r)
            .map(|x| x.oid.clone())
            .unwrap()
    };
    assert_eq!(oid_of("refs/heads/main"), "aaa");
    assert_eq!(oid_of("refs/heads/dev"), "bbb");
    assert_eq!(oid_of("refs/heads/extra"), "ccc");
    assert_eq!(disagreements.len(), 1);
    assert_eq!(disagreements[0].refstr, "refs/heads/main");
    assert_eq!(disagreements[0].oid, "zzz");
}
