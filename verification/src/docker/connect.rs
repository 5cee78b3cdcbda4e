//! Daemon connection failures: their classification and the plain-text
//! message the user sees before the terminal enters raw mode.

use vstd::prelude::*;
use vstd::string::*;

verus! {

/// Why the daemon is not usable.
#[derive(Debug, Clone, PartialEq, Eq)]
pub enum ProbeError {
    /// The socket file does not exist.
    SocketMissing { path: String },
    /// The socket exists but the user may not open it.
    PermissionDenied { path: String },
    /// The socket opens but the daemon does not answer; `detail` is the
    /// underlying error text.
    DaemonDown { path: String, detail: String },
    /// Anything that cannot be classified more precisely.
    Other(String),
}

/// The message shown for each failure.
pub open spec fn probe_message(e: ProbeError) -> Seq<char> {
    match e {
        ProbeError::SocketMissing { path } =>
            "Docker socket not found at "@ + path@ + " — is Docker installed and running?"@,
        ProbeError::PermissionDenied { path } =>
            "Permission denied on "@ + path@
                + " — add your user to the `docker` group or use the rootless socket."@,
        ProbeError::DaemonDown { path, detail } =>
            "Docker daemon not reachable at "@ + path@
                + " — is it running? (try: systemctl start docker) ["@ + detail@ + "]"@,
        ProbeError::Other(detail) => "Could not talk to the Docker daemon: "@ + detail@,
    }
}

/// Every failure yields an actionable message: never empty, and longer
/// than a stub.
pub proof fn lemma_messages_actionable(e: ProbeError)
    ensures
        probe_message(e).len() > 10,
{
    reveal_strlit("Docker socket not found at ");
    reveal_strlit("Permission denied on ");
    reveal_strlit("Docker daemon not reachable at ");
    reveal_strlit("Could not talk to the Docker daemon: ");
}

impl ProbeError {
    /// The exact plain-text message the caller prints before exiting.
    pub fn user_message(&self) -> (m: String)
        ensures
            m@ == probe_message(*self),
    {
        match self {
            ProbeError::SocketMissing { path } => {
                let mut m = String::from_str("Docker socket not found at ");
                m.append(path.as_str());
                m.append(" — is Docker installed and running?");
                m
            },
            ProbeError::PermissionDenied { path } => {
                let mut m = String::from_str("Permission denied on ");
                m.append(path.as_str());
                m.append(" — add your user to the `docker` group or use the rootless socket.");
                m
            },
            ProbeError::DaemonDown { path, detail } => {
                let mut m = String::from_str("Docker daemon not reachable at ");
                m.append(path.as_str());
                m.append(" — is it running? (try: systemctl start docker) [");
                m.append(detail.as_str());
                m.append("]");
                m
            },
            ProbeError::Other(detail) => {
                let mut m = String::from_str("Could not talk to the Docker daemon: ");
                m.append(detail.as_str());
                m
            },
        }
    }
}

/// The kinds of I/O failure the classifier tells apart.
#[derive(Debug, Clone, Copy, PartialEq, Eq, Hash, Structural)]
pub enum IoErrorKind {
    PermissionDenied,
    NotFound,
    ConnectionRefused,
    ConnectionReset,
    ConnectionAborted,
    BrokenPipe,
    NotConnected,
    TimedOut,
    /// Any other kind.
    Other,
}



/// Whether `e` is the failure an I/O error of kind `kind` with text
/// `detail` on the socket `path` means.
pub open spec fn is_probe_from_io(e: ProbeError, kind: IoErrorKind, detail: Seq<char>, path: Seq<char>) -> bool {
    match kind {
        IoErrorKind::PermissionDenied => e matches ProbeError::PermissionDenied { path: p } && p@ == path,
        IoErrorKind::NotFound => e matches ProbeError::SocketMissing { path: p } && p@ == path,
        _ => e matches ProbeError::DaemonDown { path: p, detail: d } && p@ == path && d@ == detail,
    }
}

/// Classify an I/O failure: permission denied and not-found have their
/// own variants; every other kind means the daemon is down, with the error
/// text as detail.
pub fn probe_from_io(kind: IoErrorKind, detail: &str, path: &str) -> (e: ProbeError)
    ensures
        is_probe_from_io(e, kind, detail@, path@),
{
    match kind {
        IoErrorKind::PermissionDenied => ProbeError::PermissionDenied { path: String::from_str(path) },
        IoErrorKind::NotFound => ProbeError::SocketMissing { path: String::from_str(path) },
        _ => ProbeError::DaemonDown { path: String::from_str(path), detail: String::from_str(detail) },
    }
}

} // verus!

verus! {

#[verifier::external_type_specification]
#[verifier::external_body]
pub struct ExIoError(std::io::Error);

/// Calls `std::io::Error::kind` and sorts the kind into [`IoErrorKind`];
/// nothing is stated of which kind an error has.
#[verifier::external_body]
fn io_error_kind(err: &std::io::Error) -> IoErrorKind {
    match err.kind() {
        std::io::ErrorKind::PermissionDenied => IoErrorKind::PermissionDenied,
        std::io::ErrorKind::NotFound => IoErrorKind::NotFound,
        std::io::ErrorKind::ConnectionRefused => IoErrorKind::ConnectionRefused,
        std::io::ErrorKind::ConnectionReset => IoErrorKind::ConnectionReset,
        std::io::ErrorKind::ConnectionAborted => IoErrorKind::ConnectionAborted,
        std::io::ErrorKind::BrokenPipe => IoErrorKind::BrokenPipe,
        std::io::ErrorKind::NotConnected => IoErrorKind::NotConnected,
        std::io::ErrorKind::TimedOut => IoErrorKind::TimedOut,
        _ => IoErrorKind::Other,
    }
}

/// Calls `std::io::Error`'s `Display` (through `to_string`); nothing is
/// stated of the text.
#[verifier::external_body]
fn io_error_text(err: &std::io::Error) -> String {
    err.to_string()
}

/// The kind and text of an I/O error, as the classifier reads them.
/// Nothing is stated of which kind or text an error has.
pub fn io_error_parts(err: &std::io::Error) -> (r: (IoErrorKind, String)) {
    (io_error_kind(err), io_error_text(err))
}

/// Classify an I/O error on the socket `path` with [`probe_from_io`]; the
/// failure always names `path`.
pub fn io_to_probe(err: &std::io::Error, path: &str) -> (e: ProbeError)
    ensures
        match e {
            ProbeError::PermissionDenied { path: p } => p@ == path@,
            ProbeError::SocketMissing { path: p } => p@ == path@,
            ProbeError::DaemonDown { path: p, detail: _ } => p@ == path@,
            ProbeError::Other(_) => false,
        },
{
    let (kind, text) = io_error_parts(err);
    probe_from_io(kind, text.as_str(), path)
}

/// How a Docker client error presents itself to the classifier.
#[derive(Debug, Clone, PartialEq, Eq)]
pub enum DockerErrorKind {
    /// The client found no socket file at the carried path (may be empty).
    SocketNotFound(String),
    /// A direct I/O error of the given kind and text.
    Io(IoErrorKind, String),
    /// A response decoding or API-version parsing failure.
    Decode,
    /// Anything else.
    Unclassified,
}

/// A Docker client error as the classifier reads it: its kind, its text,
/// and the first I/O error found along its source chain, if any.
#[derive(Debug, Clone, PartialEq, Eq)]
pub struct DockerErrorInfo {
    pub kind: DockerErrorKind,
    pub text: String,
    pub chained_io: Option<(IoErrorKind, String)>,
}

/// Classify a Docker client error: a missing socket names the client's
/// path (or `path` when that is empty); a direct or chained I/O error goes
/// through [`probe_from_io`]; decoding failures are `Other`; anything else
/// means the daemon is down, with the error text as detail.
pub fn classify(err: &DockerErrorInfo, path: &str) -> (e: ProbeError)
    ensures
        match err.kind {
            DockerErrorKind::SocketNotFound(p) =>
                e matches ProbeError::SocketMissing { path: q } && q@ == (if p@.len() == 0 { path@ } else { p@ }),
            DockerErrorKind::Io(k, t) => is_probe_from_io(e, k, t@, path@),
            _ => match err.chained_io {
                Some((k, t)) => is_probe_from_io(e, k, t@, path@),
                None => match err.kind {
                    DockerErrorKind::Decode => e matches ProbeError::Other(d) && d@ == err.text@,
                    _ => e matches ProbeError::DaemonDown { path: p, detail: d } && p@ == path@ && d@ == err.text@,
                },
            },
        },
{
    match &err.kind {
        DockerErrorKind::SocketNotFound(p) => {
            if p.as_str().unicode_len() == 0 {
                ProbeError::SocketMissing { path: String::from_str(path) }
            } else {
                ProbeError::SocketMissing { path: String::from_str(p.as_str()) }
            }
        },
        DockerErrorKind::Io(k, t) => probe_from_io(*k, t.as_str(), path),
        _ => {
            match &err.chained_io {
                Some((k, t)) => probe_from_io(*k, t.as_str(), path),
                None => {
                    match &err.kind {
                        DockerErrorKind::Decode => ProbeError::Other(String::from_str(err.text.as_str())),
                        _ => ProbeError::DaemonDown {
                            path: String::from_str(path),
                            detail: String::from_str(err.text.as_str()),
                        },
                    }
                },
            }
        },
    }
}

/// Default Docker socket path.
pub open spec fn default_socket_path() -> Seq<char> {
    "/var/run/docker.sock"@
}

/// The socket path error messages mention: `DOCKER_HOST` when it is set
/// and non-empty, else the platform default.
pub fn effective_socket_path(docker_host: Option<&str>) -> (p: String)
    ensures
        p@ == match docker_host {
            Some(h) => if h@.len() > 0 { h@ } else { default_socket_path() },
            None => default_socket_path(),
        },
{
    if let Some(h) = docker_host {
        if h.unicode_len() > 0 {
            return String::from_str(h);
        }
    }
    String::from_str("/var/run/docker.sock")
}

} // verus!
