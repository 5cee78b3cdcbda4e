use dd3::docker::domain::{ContainerSnapshot, PortProto, PortSummary};
use dd3::docker::images::{image_snapshot, ImageSnapshot};
use dd3::docker::inspect::{
    first_binding_host_port, enriched_on_seed, enriched_on_start, extract_ports, pick_primary_network, ContainerInspect, InspectState,
    PortMapEntry,
};
use dd3::docker::stats::{
    effective_online_cpus, is_warming_up, raw_cpu_from, raw_mem_from, working_set, CpuStatsReport,
    MemStatsReport, RawCpu, RawMem,
};
use dd3::docker::streams::{
    container_name_from_event, react_to_event, seed_plan, ContainerEvent, EventReaction, SeedPlan, StatsTask,
};
use dd3::theme::Status;

fn inspect() -> ContainerInspect {
    ContainerInspect { networks: None, ports: None, mounts: None, state: None }
}

fn entry(key: &str, host_port: Option<&str>) -> PortMapEntry {
    PortMapEntry { key: key.to_string(), bindings: host_port.map(|s| vec![Some(s.to_string())]) }
}

#[test]
fn image_snapshot_default_is_constructible() {
    let s = ImageSnapshot { id: String::new(), repo_tag: String::new(), layer_count: 0 };
    assert!(s.id.is_empty());
    assert!(s.repo_tag.is_empty());
    assert_eq!(s.layer_count, 0);
}

#[test]
fn image_snapshot_uses_first_tag_and_skips_failures() {
    let tags = vec!["nginx:latest".to_string(), "nginx:1".to_string()];
    assert_eq!(
        image_snapshot("sha256:1", &tags, Some(7)),
        Some(ImageSnapshot { id: "sha256:1".to_string(), repo_tag: "nginx:latest".to_string(), layer_count: 7 })
    );
    assert_eq!(image_snapshot("sha256:2", &Vec::new(), Some(0)).unwrap().repo_tag, "<untagged>");
    assert_eq!(image_snapshot("", &tags, Some(3)), None);
    assert_eq!(image_snapshot("sha256:3", &tags, None), None);
}

#[test]
fn pick_primary_network_sorts_keys() {
    let r = ContainerInspect {
        networks: Some(vec!["zeta".to_string(), "alpha".to_string(), "mid".to_string()]),
        ..inspect()
    };
    assert_eq!(pick_primary_network(&r), "alpha");
}

#[test]
fn pick_primary_network_no_networks_is_none_string() {
    assert_eq!(pick_primary_network(&inspect()), "none");
    let r2 = ContainerInspect { networks: Some(Vec::new()), ..inspect() };
    assert_eq!(pick_primary_network(&r2), "none");
}

#[test]
fn extract_ports_parses_tcp_udp_and_sorts() {
    let r = ContainerInspect {
        ports: Some(vec![
            entry("8080/tcp", Some("18080")),
            entry("53/udp", None),
            PortMapEntry {
                key: "443/tcp".to_string(),
                bindings: Some(vec![Some("8443".to_string()), Some("9999".to_string())]),
            },
        ]),
        ..inspect()
    };
    let extracted = extract_ports(&r);
    assert_eq!(extracted.len(), 3);
    assert_eq!(extracted[0], PortSummary { private: 53, public: None, proto: PortProto::Udp });
    assert_eq!(extracted[1], PortSummary { private: 443, public: Some(8443), proto: PortProto::Tcp });
    assert_eq!(extracted[2], PortSummary { private: 8080, public: Some(18080), proto: PortProto::Tcp });
}

#[test]
fn extract_ports_no_ports_is_empty() {
    assert!(extract_ports(&inspect()).is_empty());
    let r2 = ContainerInspect { ports: Some(Vec::new()), ..inspect() };
    assert!(extract_ports(&r2).is_empty());
}

#[test]
fn extract_ports_malformed_key_is_skipped() {
    let r = ContainerInspect {
        ports: Some(vec![entry("garbage/tcp", None), entry("80/tcp", Some("8080"))]),
        ..inspect()
    };
    let out = extract_ports(&r);
    assert_eq!(out.len(), 1);
    assert_eq!(out[0].private, 80);
}

#[test]
fn extract_ports_edge_keys() {
    let r = ContainerInspect {
        ports: Some(vec![
            entry("9000", None),
            entry("70000/tcp", None),
            entry("+22/SCTP", Some("+2222")),
            entry("5353/udp/extra", Some("not-a-port")),
            entry("/tcp", None),
        ]),
        ..inspect()
    };
    assert_eq!(
        extract_ports(&r),
        vec![
            PortSummary { private: 22, public: Some(2222), proto: PortProto::Sctp },
            PortSummary { private: 5353, public: None, proto: PortProto::Tcp },
            PortSummary { private: 9000, public: None, proto: PortProto::Tcp },
        ]
    );
}

#[test]
fn enrichment_on_start_and_seed() {
    let r = ContainerInspect {
        networks: Some(vec!["b".to_string(), "a".to_string()]),
        ports: Some(vec![entry("80/tcp", None)]),
        mounts: Some(2),
        state: Some(InspectState { status: Some("exited".to_string()), oom_killed: Some(true), exit_code: Some(0) }),
    };
    let e = enriched_on_start("c1", &r);
    assert_eq!(e.id, "c1");
    assert_eq!(e.group_key, "a");
    assert_eq!(e.ports, vec![PortSummary { private: 80, public: None, proto: PortProto::Tcp }]);
    assert_eq!(e.mount_count, 2);
    assert_eq!(e.status_override, None);
    assert_eq!(enriched_on_seed("c1", &r).status_override, Some(Status::Crashed));
    let running = ContainerInspect {
        state: Some(InspectState { status: Some("running".to_string()), oom_killed: None, exit_code: None }),
        ..inspect()
    };
    let e2 = enriched_on_seed("c2", &running);
    assert_eq!(e2.status_override, None);
    assert_eq!(e2.mount_count, 0);
    assert_eq!(e2.group_key, "none");
    let clean_exit = ContainerInspect {
        state: Some(InspectState { status: Some("exited".to_string()), oom_killed: Some(false), exit_code: Some(0) }),
        ..inspect()
    };
    assert_eq!(enriched_on_seed("c3", &clean_exit).status_override, None);
}

#[test]
fn raw_mem_picker_falls_back_to_cgroup_v1_cache() {
    let mem = MemStatsReport { usage: Some(1000), limit: Some(2000), inactive_file: None, cache: Some(200) };
    let r = raw_mem_from(Some(&mem));
    assert_eq!(r.usage, 1000);
    assert_eq!(r.cache, 200, "cgroup v1 cache key must be picked up");
    assert_eq!(r.limit, 2000);
}

#[test]
fn raw_mem_prefers_cgroup_v2_inactive_file() {
    let mem = MemStatsReport { usage: Some(500), limit: Some(1000), inactive_file: Some(100), cache: Some(300) };
    assert_eq!(raw_mem_from(Some(&mem)), RawMem { usage: 500, cache: 100, limit: 1000 });
    assert_eq!(raw_mem_from(None), RawMem::default());
}

#[test]
fn raw_cpu_widens_online_cpus_to_u64() {
    let cpu = CpuStatsReport {
        total_usage: Some(123),
        percpu_len: Some(3),
        system_cpu_usage: Some(456),
        online_cpus: Some(7),
    };
    let r = raw_cpu_from(Some(&cpu));
    assert_eq!(r.total_usage, 123);
    assert_eq!(r.system_usage, Some(456));
    assert_eq!(r.online_cpus, Some(7u64));
    assert_eq!(r.percpu_len, 3);
    assert_eq!(raw_cpu_from(None), RawCpu::default());
}

#[test]
fn none_online_cpus_falls_back_to_percpu_len() {
    let c = RawCpu { total_usage: 1, system_usage: Some(1), online_cpus: None, percpu_len: 8 };
    assert_eq!(effective_online_cpus(&c), 8);
    let z = RawCpu { online_cpus: Some(0), ..c };
    assert_eq!(effective_online_cpus(&z), 8);
    let n = RawCpu { online_cpus: Some(4), ..c };
    assert_eq!(effective_online_cpus(&n), 4);
}

#[test]
fn first_sample_is_warming_up() {
    assert!(is_warming_up(None));
}

#[test]
fn zero_precpu_counters_count_as_warming_up() {
    let zero = RawCpu { total_usage: 0, system_usage: Some(0), online_cpus: Some(4), percpu_len: 4 };
    assert!(is_warming_up(Some(&zero)));
    let absent_sys = RawCpu { system_usage: None, ..zero };
    assert!(is_warming_up(Some(&absent_sys)));
    let real = RawCpu { total_usage: 1_000, system_usage: Some(10_000), ..zero };
    assert!(!is_warming_up(Some(&real)));
}

#[test]
fn memory_subtracts_cache() {
    assert_eq!(working_set(&RawMem { usage: 1_000, cache: 400, limit: 2_000 }), 600);
}

#[test]
fn memory_clamps_to_limit() {
    assert_eq!(working_set(&RawMem { usage: 5_000, cache: 0, limit: 2_000 }), 2_000);
    assert_eq!(working_set(&RawMem { usage: 100, cache: 400, limit: 0 }), 0);
    assert_eq!(working_set(&RawMem { usage: 5_000, cache: 0, limit: 0 }), 5_000);
}

fn event(action: &str, id: &str) -> ContainerEvent {
    ContainerEvent {
        is_container: true,
        action: Some(action.to_string()),
        actor_id: Some(id.to_string()),
        name_attr: None,
        exit_code_attr: None,
    }
}

#[test]
fn create_event_announces_a_stopped_container() {
    let mut e = event("create", "0123456789abcdef");
    e.name_attr = Some("/web".to_string());
    match react_to_event(&e) {
        EventReaction::Added(s) => {
            assert_eq!(s.id, "0123456789abcdef");
            assert_eq!(s.name, "web");
            assert_eq!(s.status, Status::Stopped);
            assert_eq!(s.group_key, "none");
            assert!(s.ports.is_empty());
        }
        other => panic!("expected Added, got {other:?}"),
    }
    e.name_attr = None;
    match react_to_event(&e) {
        EventReaction::Added(s) => assert_eq!(s.name, "0123456789ab"),
        other => panic!("expected Added, got {other:?}"),
    }
}

#[test]
fn lifecycle_events_change_status_and_stats_streams() {
    let st = |a: &str| react_to_event(&event(a, "c"));
    let change = |status, stats, enrich| EventReaction::StatusChanged { id: "c".to_string(), status, stats, enrich };
    assert_eq!(st("start"), change(Status::Running, StatsTask::SpawnIfAbsent, true));
    assert_eq!(st("unpause"), change(Status::Running, StatsTask::SpawnIfAbsent, false));
    assert_eq!(st("pause"), change(Status::Paused, StatsTask::Keep, false));
    assert_eq!(st("restart"), change(Status::Restarting, StatsTask::Keep, false));
    assert_eq!(st("oom"), change(Status::Crashed, StatsTask::Abort, false));
    assert_eq!(st("die"), change(Status::Stopped, StatsTask::Abort, false));
    assert_eq!(st("destroy"), EventReaction::Removed("c".to_string()));
    assert_eq!(st("exec_start"), EventReaction::Ignore);
}

#[test]
fn die_event_reads_the_exit_code_attribute() {
    let mut e = event("die", "c");
    e.exit_code_attr = Some("137".to_string());
    assert!(matches!(react_to_event(&e), EventReaction::StatusChanged { status: Status::Crashed, .. }));
    e.exit_code_attr = Some("0".to_string());
    assert!(matches!(react_to_event(&e), EventReaction::StatusChanged { status: Status::Stopped, .. }));
    e.exit_code_attr = Some("-1".to_string());
    assert!(matches!(react_to_event(&e), EventReaction::StatusChanged { status: Status::Crashed, .. }));
    e.exit_code_attr = Some("garbage".to_string());
    assert!(matches!(react_to_event(&e), EventReaction::StatusChanged { status: Status::Stopped, .. }));
}

#[test]
fn foreign_or_anonymous_events_are_ignored() {
    let mut e = event("start", "c");
    e.is_container = false;
    assert_eq!(react_to_event(&e), EventReaction::Ignore);
    let mut anon = event("start", "");
    assert_eq!(react_to_event(&anon), EventReaction::Ignore);
    anon.actor_id = None;
    assert_eq!(react_to_event(&anon), EventReaction::Ignore);
    let mut no_action = event("start", "c");
    no_action.action = None;
    assert_eq!(react_to_event(&no_action), EventReaction::Ignore);
}

#[test]
fn container_name_from_event_trims_slashes() {
    assert_eq!(container_name_from_event(&Some("//db".to_string()), "abc"), "db");
    assert_eq!(container_name_from_event(&None, "abc"), "abc");
}

#[test]
fn seed_plan_skips_anonymous_and_streams_running() {
    let mut s = ContainerSnapshot::default();
    assert_eq!(seed_plan(&s), SeedPlan::Skip);
    s.id = "x".to_string();
    assert_eq!(seed_plan(&s), SeedPlan::Add { spawn_stats: false });
    s.status = Status::Running;
    assert_eq!(seed_plan(&s), SeedPlan::Add { spawn_stats: true });
}

#[test]
fn first_binding_host_port_takes_the_first_binding() {
    let two = Some(vec![Some("8443".to_string()), Some("9999".to_string())]);
    assert_eq!(first_binding_host_port(&two), Some("8443".to_string()));
    let first_unpublished = Some(vec![None, Some("9999".to_string())]);
    assert_eq!(first_binding_host_port(&first_unpublished), None);
    assert_eq!(first_binding_host_port(&Some(Vec::new())), None);
    assert_eq!(first_binding_host_port(&None), None);
}
