//! VCS server URLs and the decoded form of the decentralized repository URL
//! that the helper is launched with.

use vstd::prelude::*;

use crate::strings::{has_prefix, str_starts_with};
use crate::transport::ServerProtocol;

verus! {

/// The transport scheme a VCS server URL names: an explicit scheme prefix,
/// or ssh for the scp-like form without one.
pub open spec fn protocol_of_url(s: Seq<char>) -> ServerProtocol {
    if has_prefix(s, "https://"@) {
        ServerProtocol::Https
    } else if has_prefix(s, "http://"@) {
        ServerProtocol::Http
    } else if has_prefix(s, "ftp://"@) {
        ServerProtocol::Ftp
    } else if has_prefix(s, "file://"@) {
        ServerProtocol::Filesystem
    } else if has_prefix(s, "/"@) {
        ServerProtocol::Filesystem
    } else {
        ServerProtocol::Ssh
    }
}

/// A VCS server URL, as announced in a repository announcement.
pub struct CloneUrl {
    pub url: String,
}

impl CloneUrl {
    /// The transport scheme the URL names.
    pub fn protocol(&self) -> (r: ServerProtocol)
        ensures
            r == protocol_of_url(self.url@),
    {
        if str_starts_with(self.url.as_str(), "https://") {
            ServerProtocol::Https
        } else if str_starts_with(self.url.as_str(), "http://") {
            ServerProtocol::Http
        } else if str_starts_with(self.url.as_str(), "ftp://") {
            ServerProtocol::Ftp
        } else if str_starts_with(self.url.as_str(), "file://") {
            ServerProtocol::Filesystem
        } else if str_starts_with(self.url.as_str(), "/") {
            ServerProtocol::Filesystem
        } else {
            ServerProtocol::Ssh
        }
    }
}

/// The decoded decentralized URL the helper is launched with: an identifier,
/// an optional author hint, optional relay hints, an optional forced
/// transport, and an optional specific VCS server.
pub struct NostrUrlDecoded {
    /// The repository identifier.
    pub identifier: String,
    /// The author hint, hex encoded, if the URL named one.
    pub author: Option<String>,
    /// Relay hints, in URL order.
    pub relays: Vec<String>,
    /// A forced transport protocol, if the URL named one.
    pub protocol: Option<ServerProtocol>,
    /// A specific VCS server URL, if the URL named one.
    pub server: Option<String>,
}

/// The shortest human name available for a VCS server: the name of the
/// matching VCS remote when one exists, else the URL's host, else the URL.
pub fn get_short_git_server_name(
    remote_name: &Option<String>,
    domain: &Option<String>,
    url: &str,
) -> (r: String)
    ensures
        match remote_name {
            Some(name) => r@ == name@,
            None => match domain {
                Some(d) => r@ == d@,
                None => r@ == url@,
            },
        },
{
    match remote_name {
        Some(name) => name.clone(),
        None => match domain {
            Some(d) => d.clone(),
            None => {
                let mut r = String::new();
                r.append(url);
                r
            },
        },
    }
}

} // verus!
