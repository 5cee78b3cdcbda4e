use dd3::docker::connect::{
    classify, effective_socket_path, io_to_probe, probe_from_io, DockerErrorInfo, DockerErrorKind,
    IoErrorKind, ProbeError,
};
use std::io;

#[test]
fn socket_missing_message_mentions_path_and_install_hint() {
    let m = ProbeError::SocketMissing { path: "/var/run/docker.sock".to_string() }.user_message();
    assert!(m.contains("/var/run/docker.sock"), "msg: {m}");
    assert!(
        m.to_lowercase().contains("docker") && (m.contains("installed") || m.contains("running")),
        "msg should hint about install/run state: {m}"
    );
}

#[test]
fn permission_denied_message_mentions_docker_group() {
    let m = ProbeError::PermissionDenied { path: "/var/run/docker.sock".to_string() }.user_message();
    assert!(m.contains("/var/run/docker.sock"), "msg: {m}");
    assert!(
        m.contains("docker group") || m.contains("`docker` group"),
        "permission_denied should mention the `docker` group fix: {m}"
    );
}

#[test]
fn daemon_down_message_mentions_running_and_detail() {
    let m = ProbeError::DaemonDown {
        path: "/var/run/docker.sock".to_string(),
        detail: "connection refused".to_string(),
    }
    .user_message();
    assert!(m.contains("/var/run/docker.sock"), "msg: {m}");
    assert!(
        m.to_lowercase().contains("running") || m.to_lowercase().contains("daemon"),
        "daemon_down should hint at starting the daemon: {m}"
    );
    assert!(m.contains("connection refused"), "daemon_down should include the raw detail: {m}");
}

#[test]
fn other_message_includes_raw_detail() {
    let m = ProbeError::Other("weird".to_string()).user_message();
    assert!(m.contains("weird"), "Other should surface the raw text: {m}");
}

#[test]
fn user_message_equals_display() {
    let e = ProbeError::PermissionDenied { path: "/sock".to_string() };
    assert_eq!(
        e.user_message(),
        "Permission denied on /sock \u{2014} add your user to the `docker` group or use the rootless socket."
    );
}

#[test]
fn io_permission_denied_classifies_as_permission_denied() {
    let io_err = io::Error::from(io::ErrorKind::PermissionDenied);
    let p = io_to_probe(&io_err, "/var/run/docker.sock");
    assert!(matches!(p, ProbeError::PermissionDenied { .. }));
}

#[test]
fn io_not_found_classifies_as_socket_missing() {
    let io_err = io::Error::from(io::ErrorKind::NotFound);
    let p = io_to_probe(&io_err, "/var/run/docker.sock");
    assert!(matches!(p, ProbeError::SocketMissing { .. }));
}

#[test]
fn io_connection_refused_classifies_as_daemon_down() {
    let io_err = io::Error::from(io::ErrorKind::ConnectionRefused);
    let p = io_to_probe(&io_err, "/var/run/docker.sock");
    assert!(matches!(p, ProbeError::DaemonDown { .. }));
}

#[test]
fn unknown_io_kind_still_falls_back_to_daemon_down() {
    let io_err = io::Error::other("weird underlying io failure");
    let p = io_to_probe(&io_err, "/var/run/docker.sock");
    match p {
        ProbeError::DaemonDown { detail, .. } => {
            assert!(detail.contains("weird"), "raw detail should be surfaced");
        }
        _ => panic!("expected DaemonDown fallback"),
    }
}

#[test]
fn bollard_socket_not_found_classifies_as_socket_missing() {
    let err = DockerErrorInfo {
        kind: DockerErrorKind::SocketNotFound("/tmp/nope.sock".to_string()),
        text: "Socket not found: /tmp/nope.sock".to_string(),
        chained_io: None,
    };
    match classify(&err, "/var/run/docker.sock") {
        ProbeError::SocketMissing { path } => assert_eq!(path, "/tmp/nope.sock"),
        _ => panic!("expected SocketMissing"),
    }
}

#[test]
fn bollard_io_permission_classifies_as_permission_denied() {
    let err = DockerErrorInfo {
        kind: DockerErrorKind::Io(IoErrorKind::PermissionDenied, "permission denied".to_string()),
        text: "permission denied".to_string(),
        chained_io: None,
    };
    assert!(matches!(classify(&err, "/var/run/docker.sock"), ProbeError::PermissionDenied { .. }));
}

#[test]
fn bollard_io_connection_refused_classifies_as_daemon_down() {
    let err = DockerErrorInfo {
        kind: DockerErrorKind::Io(IoErrorKind::ConnectionRefused, "connection refused".to_string()),
        text: "connection refused".to_string(),
        chained_io: None,
    };
    assert!(matches!(classify(&err, "/var/run/docker.sock"), ProbeError::DaemonDown { .. }));
}

#[test]
fn every_classification_produces_a_nonempty_message() {
    let cases = [
        ProbeError::SocketMissing { path: "/s".to_string() },
        ProbeError::PermissionDenied { path: "/s".to_string() },
        ProbeError::DaemonDown { path: "/s".to_string(), detail: "x".to_string() },
        ProbeError::Other("x".to_string()),
    ];
    for c in cases {
        let m = c.user_message();
        assert!(!m.is_empty(), "every variant must produce a message");
        assert!(m.len() > 10, "messages should be actionable, not stubs: {m}");
    }
}

#[test]
fn effective_socket_path_falls_back_to_platform_default() {
    assert_eq!(effective_socket_path(None), "/var/run/docker.sock");
    assert_eq!(effective_socket_path(Some("")), "/var/run/docker.sock");
    assert_eq!(effective_socket_path(Some("tcp://host:2375")), "tcp://host:2375");
}

#[test]
fn empty_socket_not_found_path_uses_caller_path() {
    let err = DockerErrorInfo {
        kind: DockerErrorKind::SocketNotFound(String::new()),
        text: String::new(),
        chained_io: None,
    };
    assert_eq!(
        classify(&err, "/var/run/docker.sock"),
        ProbeError::SocketMissing { path: "/var/run/docker.sock".to_string() }
    );
}

#[test]
fn chained_io_error_is_classified_by_its_kind() {
    let err = DockerErrorInfo {
        kind: DockerErrorKind::Unclassified,
        text: "hyper error".to_string(),
        chained_io: Some((IoErrorKind::NotFound, "no such file".to_string())),
    };
    assert_eq!(
        classify(&err, "/s"),
        ProbeError::SocketMissing { path: "/s".to_string() }
    );
}

#[test]
fn decode_error_is_other_and_unclassified_is_daemon_down() {
    let decode = DockerErrorInfo {
        kind: DockerErrorKind::Decode,
        text: "bad json".to_string(),
        chained_io: None,
    };
    assert_eq!(classify(&decode, "/s"), ProbeError::Other("bad json".to_string()));
    let other = DockerErrorInfo {
        kind: DockerErrorKind::Unclassified,
        text: "timeout".to_string(),
        chained_io: None,
    };
    assert_eq!(
        classify(&other, "/s"),
        ProbeError::DaemonDown { path: "/s".to_string(), detail: "timeout".to_string() }
    );
}

#[test]
fn probe_from_io_keeps_detail_for_daemon_down() {
    assert_eq!(
        probe_from_io(IoErrorKind::TimedOut, "timed out", "/s"),
        ProbeError::DaemonDown { path: "/s".to_string(), detail: "timed out".to_string() }
    );
    assert_eq!(
        ProbeError::Other("boom".to_string()).user_message(),
        "Could not talk to the Docker daemon: boom"
    );
}
