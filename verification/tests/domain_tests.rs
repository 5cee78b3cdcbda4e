use dd3::docker::domain::{
    from_bollard_summary, map_status, sort_ports, ContainerSnapshot, ContainerSummary, PortProto,
    PortSummary, SummaryPort,
};
use dd3::theme::Status;

#[test]
fn map_status_running() {
    assert_eq!(map_status("running", None, None), Status::Running);
}

#[test]
fn map_status_paused() {
    assert_eq!(map_status("paused", None, None), Status::Paused);
}

#[test]
fn map_status_restarting() {
    assert_eq!(map_status("restarting", None, None), Status::Restarting);
}

#[test]
fn map_status_dead_is_crashed() {
    assert_eq!(map_status("dead", None, None), Status::Crashed);
    assert_eq!(map_status("dead", Some(false), Some(0)), Status::Crashed, "dead overrides exit_code=0");
}

#[test]
fn map_status_exited_zero_is_stopped() {
    assert_eq!(map_status("exited", Some(false), Some(0)), Status::Stopped);
}

#[test]
fn map_status_exited_nonzero_is_crashed() {
    assert_eq!(map_status("exited", Some(false), Some(137)), Status::Crashed);
    assert_eq!(map_status("exited", None, Some(1)), Status::Crashed);
}

#[test]
fn map_status_exited_oom_is_crashed() {
    assert_eq!(map_status("exited", Some(true), Some(0)), Status::Crashed);
}

#[test]
fn map_status_exited_unknown_exit_code_is_stopped() {
    assert_eq!(map_status("exited", None, None), Status::Stopped);
    assert_eq!(map_status("exited", Some(false), None), Status::Stopped);
}

#[test]
fn map_status_created_removing_stopping_are_stopped() {
    assert_eq!(map_status("created", None, None), Status::Stopped);
    assert_eq!(map_status("removing", None, None), Status::Stopped);
    assert_eq!(map_status("stopping", None, None), Status::Stopped);
}

#[test]
fn map_status_unknown_defaults_to_stopped() {
    assert_eq!(map_status("", None, None), Status::Stopped);
    assert_eq!(map_status("ghost-state", None, None), Status::Stopped);
    assert_eq!(map_status("RUNNING", None, None), Status::Stopped);
}

fn summary_with_ports(ports: Vec<SummaryPort>) -> ContainerSummary {
    ContainerSummary {
        id: Some("abc".to_string()),
        names: Some(vec!["/x".to_string()]),
        state: None,
        networks: None,
        ports: Some(ports),
    }
}

#[test]
fn from_bollard_summary_extracts_ports_tcp_udp() {
    let ps = vec![
        SummaryPort { private_port: 8080, public_port: Some(18080), typ: Some("tcp".to_string()) },
        SummaryPort { private_port: 53, public_port: None, typ: Some("udp".to_string()) },
    ];
    let snap = from_bollard_summary(&summary_with_ports(ps));
    assert_eq!(snap.ports.len(), 2);
    assert_eq!(snap.ports[0], PortSummary { private: 53, public: None, proto: PortProto::Udp });
    assert_eq!(snap.ports[1], PortSummary { private: 8080, public: Some(18080), proto: PortProto::Tcp });
    assert_eq!(snap.mount_count, 0);
}

#[test]
fn from_bollard_summary_no_ports_is_empty_vec() {
    let s = ContainerSummary {
        id: Some("abc".to_string()),
        names: Some(vec!["/x".to_string()]),
        state: None,
        networks: None,
        ports: None,
    };
    let snap = from_bollard_summary(&s);
    assert!(snap.ports.is_empty());
}

#[test]
fn port_proto_from_bollard_defaults_to_tcp() {
    assert_eq!(PortProto::from_bollard(None), PortProto::Tcp);
    assert_eq!(PortProto::from_bollard(Some("")), PortProto::Tcp);
    assert_eq!(PortProto::from_bollard(Some("garbage")), PortProto::Tcp);
    assert_eq!(PortProto::from_bollard(Some("udp")), PortProto::Udp);
    assert_eq!(PortProto::from_bollard(Some("UDP")), PortProto::Udp);
    assert_eq!(PortProto::from_bollard(Some("sctp")), PortProto::Sctp);
    assert_eq!(PortProto::Tcp.as_str(), "tcp");
    assert_eq!(PortProto::Udp.as_str(), "udp");
    assert_eq!(PortProto::Sctp.as_str(), "sctp");
}

#[test]
fn container_snapshot_default_is_sane() {
    let d = ContainerSnapshot::default();
    assert_eq!(d.id, "");
    assert_eq!(d.name, "");
    assert_eq!(d.status, Status::Stopped);
    assert_eq!(d.group_key, "none");
    assert!(d.ports.is_empty());
    assert_eq!(d.mount_count, 0);
}

#[test]
fn map_status_covers_all_status_variants() {
    let outputs = [
        map_status("running", None, None),
        map_status("paused", None, None),
        map_status("exited", None, None),
        map_status("restarting", None, None),
        map_status("dead", None, None),
    ];
    assert!(outputs.contains(&Status::Running));
    assert!(outputs.contains(&Status::Paused));
    assert!(outputs.contains(&Status::Stopped));
    assert!(outputs.contains(&Status::Restarting));
    assert!(outputs.contains(&Status::Crashed));
}

#[test]
fn summary_name_trims_slashes_and_falls_back_to_short_id() {
    let mut s = summary_with_ports(Vec::new());
    s.names = Some(vec!["//web".to_string(), "/other".to_string()]);
    assert_eq!(from_bollard_summary(&s).name, "web");
    s.id = Some("0123456789abcdef".to_string());
    s.names = None;
    assert_eq!(from_bollard_summary(&s).name, "0123456789ab");
    s.names = Some(Vec::new());
    assert_eq!(from_bollard_summary(&s).name, "0123456789ab");
}

#[test]
fn summary_group_is_smallest_network_name() {
    let mut s = summary_with_ports(Vec::new());
    s.networks = Some(vec!["zeta".to_string(), "alpha".to_string(), "beta".to_string()]);
    assert_eq!(from_bollard_summary(&s).group_key, "alpha");
    s.networks = Some(Vec::new());
    assert_eq!(from_bollard_summary(&s).group_key, "none");
    s.networks = None;
    assert_eq!(from_bollard_summary(&s).group_key, "none");
}

#[test]
fn summary_status_maps_state_without_exit_info() {
    let mut s = summary_with_ports(Vec::new());
    s.state = Some("running".to_string());
    assert_eq!(from_bollard_summary(&s).status, Status::Running);
    s.state = Some("exited".to_string());
    assert_eq!(from_bollard_summary(&s).status, Status::Stopped);
    s.state = None;
    assert_eq!(from_bollard_summary(&s).status, Status::Stopped);
}

#[test]
fn sort_ports_is_stable_by_private_then_proto() {
    let a = PortSummary { private: 80, public: Some(1), proto: PortProto::Udp };
    let b = PortSummary { private: 80, public: Some(2), proto: PortProto::Tcp };
    let c = PortSummary { private: 22, public: None, proto: PortProto::Sctp };
    let d = PortSummary { private: 80, public: Some(3), proto: PortProto::Tcp };
    let out = sort_ports(&vec![a, b, c, d]);
    assert_eq!(out, vec![c, b, d, a]);
    assert!(sort_ports(&Vec::new()).is_empty());
}
