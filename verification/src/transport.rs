//! Transport selection: given a VCS server URL and an operation kind, an
//! ordered list of protocols to attempt, and the authentication-aware
//! fallthrough rule that walks it.

use vstd::prelude::*;

use crate::strings::{has_substring, string_contains};
use crate::urls::{protocol_of_url, CloneUrl, NostrUrlDecoded};

verus! {

/// A transport protocol for one attempt against a VCS server. The unauth
/// variants try the protocol without offering credentials.
#[derive(Clone, Copy, PartialEq, Eq, Structural, Debug)]
pub enum ServerProtocol {
    Ssh,
    Https,
    Http,
    UnauthHttps,
    UnauthHttp,
    Ftp,
    Filesystem,
}

/// Which way objects move in a VCS transfer.
#[derive(Clone, Copy, PartialEq, Eq, Structural, Debug)]
pub enum TransferDirection {
    Fetch,
    Push,
}

/// Whether a VCS transfer is still running or has finished.
#[derive(Clone, Copy, PartialEq, Eq, Structural, Debug)]
pub enum ProgressStatus {
    InProgress,
    Complete,
}

/// An error from one transport attempt. The first five variants are the
/// structural authentication classes; `Wrapped` carries the message of a
/// library error classified by substring only.
pub enum TransportError {
    /// The server demands authentication.
    AuthRequired,
    /// The remote host key is unknown or does not match.
    HostKeyMismatch,
    /// No credentials are available to offer.
    NoKeysAvailable,
    /// The server rejected the credentials for this operation.
    PermissionDenied,
    /// The repository exists but is not visible to this user.
    RepoNotVisible,
    /// The network or TLS layer failed.
    Network(String),
    /// The remote spoke the protocol wrongly.
    Protocol(String),
    /// A wrapped library error, carrying only its message.
    Wrapped(String),
}

/// The message substrings that mark a wrapped library error as
/// authentication related.
pub open spec fn wrapped_message_is_auth(s: Seq<char>) -> bool {
    ||| has_substring(s, "no ssh keys found"@)
    ||| has_substring(s, "invalid or unknown remote ssh hostkey"@)
    ||| has_substring(s, "all authentication attempts failed"@)
    ||| has_substring(s, "Permission to"@)
    ||| has_substring(s, "Repository not found"@)
}

/// Whether a transport error is authentication related: the structural
/// classes are, a wrapped message is when it carries one of the known
/// authentication phrases, and network or protocol failures are not.
pub open spec fn error_is_auth_related(e: &TransportError) -> bool {
    match e {
        TransportError::AuthRequired => true,
        TransportError::HostKeyMismatch => true,
        TransportError::NoKeysAvailable => true,
        TransportError::PermissionDenied => true,
        TransportError::RepoNotVisible => true,
        TransportError::Network(_) => false,
        TransportError::Protocol(_) => false,
        TransportError::Wrapped(s) => wrapped_message_is_auth(s@),
    }
}

/// Whether the error might be authentication related, so that trying the
/// same server over another protocol would be pointless.
pub fn error_might_be_authentication_related(error: &TransportError) -> (r: bool)
    ensures
        r == error_is_auth_related(error),
{
    match error {
        TransportError::AuthRequired => true,
        TransportError::HostKeyMismatch => true,
        TransportError::NoKeysAvailable => true,
        TransportError::PermissionDenied => true,
        TransportError::RepoNotVisible => true,
        TransportError::Network(_) => false,
        TransportError::Protocol(_) => false,
        TransportError::Wrapped(s) => {
            string_contains(s.as_str(), "no ssh keys found") || string_contains(
                s.as_str(),
                "invalid or unknown remote ssh hostkey",
            ) || string_contains(s.as_str(), "all authentication attempts failed")
                || string_contains(s.as_str(), "Permission to") || string_contains(
                s.as_str(),
                "Repository not found",
            )
        },
    }
}

/// Whether a failed list or fetch should fall through to the next protocol.
pub fn fetch_or_list_error_is_not_authentication_failure(error: &TransportError) -> (r: bool)
    ensures
        r == !error_is_auth_related(error),
{
    !error_might_be_authentication_related(error)
}

/// Whether a failed push should fall through to the next protocol.
pub fn push_error_is_not_authentication_failure(error: &TransportError) -> (r: bool)
    ensures
        r == !error_is_auth_related(error),
{
    !error_might_be_authentication_related(error)
}

/// The ordered protocols to attempt for a read, by server scheme: a forced
/// protocol alone, a filesystem server as itself, and otherwise the
/// unauthenticated form of the server's scheme first, then ssh, then the
/// authenticated form; ftp reads try ftp then ssh.
pub open spec fn read_protocols_for(
    server: ServerProtocol,
    forced: Option<ServerProtocol>,
) -> Seq<ServerProtocol> {
    if server == ServerProtocol::Filesystem {
        seq![ServerProtocol::Filesystem]
    } else {
        match forced {
            Some(p) => seq![p],
            None => if server == ServerProtocol::Http {
                seq![ServerProtocol::UnauthHttp, ServerProtocol::Ssh, ServerProtocol::Http]
            } else if server == ServerProtocol::Ftp {
                seq![ServerProtocol::Ftp, ServerProtocol::Ssh]
            } else {
                seq![ServerProtocol::UnauthHttps, ServerProtocol::Ssh, ServerProtocol::Https]
            },
        }
    }
}

/// The ordered protocols to attempt for a write: as for reads, but nothing
/// is tried unauthenticated.
pub open spec fn write_protocols_for(
    server: ServerProtocol,
    forced: Option<ServerProtocol>,
) -> Seq<ServerProtocol> {
    if server == ServerProtocol::Filesystem {
        seq![ServerProtocol::Filesystem]
    } else {
        match forced {
            Some(p) => seq![p],
            None => if server == ServerProtocol::Http {
                seq![ServerProtocol::Ssh, ServerProtocol::Http]
            } else if server == ServerProtocol::Ftp {
                seq![ServerProtocol::Ssh, ServerProtocol::Ftp]
            } else {
                seq![ServerProtocol::Ssh, ServerProtocol::Https]
            },
        }
    }
}

/// The ordered list of protocols to attempt for a read from this server.
pub fn get_read_protocols_to_try(server_url: &CloneUrl, decoded_nostr_url: &NostrUrlDecoded) -> (r:
    Vec<ServerProtocol>)
    ensures
        r@ == read_protocols_for(protocol_of_url(server_url.url@), decoded_nostr_url.protocol),
{
    let server = server_url.protocol();
    let mut r: Vec<ServerProtocol> = Vec::new();
    if server == ServerProtocol::Filesystem {
        r.push(ServerProtocol::Filesystem);
        assert(r@ =~= seq![ServerProtocol::Filesystem]);
    } else if let Some(p) = decoded_nostr_url.protocol {
        r.push(p);
        assert(r@ =~= seq![p]);
    } else if server == ServerProtocol::Http {
        r.push(ServerProtocol::UnauthHttp);
        r.push(ServerProtocol::Ssh);
        r.push(ServerProtocol::Http);
        assert(r@ =~= seq![ServerProtocol::UnauthHttp, ServerProtocol::Ssh, ServerProtocol::Http]);
    } else if server == ServerProtocol::Ftp {
        r.push(ServerProtocol::Ftp);
        r.push(ServerProtocol::Ssh);
        assert(r@ =~= seq![ServerProtocol::Ftp, ServerProtocol::Ssh]);
    } else {
        r.push(ServerProtocol::UnauthHttps);
        r.push(ServerProtocol::Ssh);
        r.push(ServerProtocol::Https);
        assert(r@ =~= seq![
            ServerProtocol::UnauthHttps,
            ServerProtocol::Ssh,
            ServerProtocol::Https,
        ]);
    }
    r
}

/// The ordered list of protocols to attempt for a write to this server.
pub fn get_write_protocols_to_try(server_url: &CloneUrl, decoded_nostr_url: &NostrUrlDecoded) -> (r:
    Vec<ServerProtocol>)
    ensures
        r@ == write_protocols_for(protocol_of_url(server_url.url@), decoded_nostr_url.protocol),
{
    let server = server_url.protocol();
    let mut r: Vec<ServerProtocol> = Vec::new();
    if server == ServerProtocol::Filesystem {
        r.push(ServerProtocol::Filesystem);
        assert(r@ =~= seq![ServerProtocol::Filesystem]);
    } else if let Some(p) = decoded_nostr_url.protocol {
        r.push(p);
        assert(r@ =~= seq![p]);
    } else if server == ServerProtocol::Http {
        r.push(ServerProtocol::Ssh);
        r.push(ServerProtocol::Http);
        assert(r@ =~= seq![ServerProtocol::Ssh, ServerProtocol::Http]);
    } else if server == ServerProtocol::Ftp {
        r.push(ServerProtocol::Ssh);
        r.push(ServerProtocol::Ftp);
        assert(r@ =~= seq![ServerProtocol::Ssh, ServerProtocol::Ftp]);
    } else {
        r.push(ServerProtocol::Ssh);
        r.push(ServerProtocol::Https);
        assert(r@ =~= seq![ServerProtocol::Ssh, ServerProtocol::Https]);
    }
    r
}

/// What the driver does after one candidate protocol failed.
#[derive(Clone, Copy, PartialEq, Eq, Structural, Debug)]
pub enum FallthroughStep {
    /// Try the candidate at this position next.
    TryNext { next: usize },
    /// Stop and surface the error to the user.
    Surface,
    /// Every candidate failed; report the last error.
    Exhausted,
}

/// The fallthrough rule: an authentication-related error stops the walk, as
/// does an earlier successful ssh authentication; any other error advances
/// to the next candidate while one exists.
pub open spec fn spec_fallthrough_step(
    candidate_count: nat,
    index: nat,
    auth_related: bool,
    ssh_authenticated: bool,
) -> FallthroughStep {
    if auth_related || ssh_authenticated {
        FallthroughStep::Surface
    } else if index + 1 < candidate_count {
        FallthroughStep::TryNext { next: (index + 1) as usize }
    } else {
        FallthroughStep::Exhausted
    }
}

/// Decide what to do after the candidate at `index` failed with `error`.
/// `ssh_authenticated` says whether an earlier ssh attempt authenticated;
/// a later failure must then not fall forward to a weaker protocol.
pub fn transport_fallthrough_step(
    candidates: &Vec<ServerProtocol>,
    index: usize,
    error: &TransportError,
    ssh_authenticated: bool,
) -> (r: FallthroughStep)
    requires
        index < candidates@.len(),
    ensures
        r == spec_fallthrough_step(
            candidates@.len() as nat,
            index as nat,
            error_is_auth_related(error),
            ssh_authenticated,
        ),
{
    let n = candidates.len();
    if error_might_be_authentication_related(error) || ssh_authenticated {
        FallthroughStep::Surface
    } else if index + 1 < n {
        FallthroughStep::TryNext { next: index + 1 }
    } else {
        FallthroughStep::Exhausted
    }
}

/// The transport fallthrough law: for every candidate list, position and
/// error, a non-authentication error advances to the next candidate when one
/// exists, and an authentication-related error surfaces at once, so the
/// remaining candidates are never attempted.
pub proof fn lemma_transport_fallthrough(
    candidate_count: nat,
    index: nat,
    auth_related: bool,
    ssh_authenticated: bool,
)
    requires
        index < candidate_count,
    ensures
        auth_related ==> spec_fallthrough_step(candidate_count, index, auth_related, ssh_authenticated)
            == FallthroughStep::Surface,
        !auth_related && !ssh_authenticated && index + 1 < candidate_count
            ==> spec_fallthrough_step(candidate_count, index, auth_related, ssh_authenticated)
            == (FallthroughStep::TryNext { next: (index + 1) as usize }),
        !auth_related && !ssh_authenticated && index + 1 == candidate_count
            ==> spec_fallthrough_step(candidate_count, index, auth_related, ssh_authenticated)
            == FallthroughStep::Exhausted,
{
}

} // verus!
