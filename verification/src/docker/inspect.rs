//! What a container-inspect response contributes to a snapshot: the
//! primary network, the published ports parsed out of the port map, the
//! mount count, and the seed-time upgrade of an already crashed container.

use vstd::prelude::*;
use vstd::string::*;
use crate::docker::domain::{
    map_status, primary_network, primary_network_of, sort_ports, sort_ports_spec, spec_map_status,
    spec_proto_from, opt_chars, EnrichedSnapshot, PortProto, PortSummary,
};
use crate::text::{find_char, first_at, parse_u16, spec_parse_u16};
use crate::theme::Status;

verus! {

/// One entry of an inspect response's port map: the `"PORT/PROTO"` key
/// and the host port of each of its bindings, in binding order (`None`
/// when the entry lists no bindings; a binding may carry no host port).
#[derive(Debug, Clone, PartialEq, Eq)]
pub struct PortMapEntry {
    pub key: String,
    pub bindings: Option<Vec<Option<String>>>,
}

/// The host port of an entry's first binding, when it has one.
pub open spec fn first_binding_host(bindings: Option<Vec<Option<String>>>) -> Option<Seq<char>> {
    match bindings {
        Some(v) => if v@.len() > 0 {
            match v@[0] {
                Some(h) => Some(h@),
                None => None,
            }
        } else {
            None
        },
        None => None,
    }
}

/// The host port of the first binding of a port-map entry (Docker may
/// bind several host addresses; the first one is shown).
pub fn first_binding_host_port(bindings: &Option<Vec<Option<String>>>) -> (r: Option<String>)
    ensures
        match r {
            Some(h) => first_binding_host(*bindings) == Some(h@),
            None => first_binding_host(*bindings) is None,
        },
{
    match bindings {
        Some(v) => {
            if v.len() > 0 {
                match &v[0] {
                    Some(h) => Some(String::from_str(h.as_str())),
                    None => None,
                }
            } else {
                None
            }
        },
        None => None,
    }
}

/// The state block of an inspect response.
#[derive(Debug, Clone, PartialEq, Eq)]
pub struct InspectState {
    /// Lower-case state string (`running`, `exited`, ...).
    pub status: Option<String>,
    pub oom_killed: Option<bool>,
    pub exit_code: Option<i64>,
}

/// The fields of an inspect response that enrichment reads.
#[derive(Debug, Clone, PartialEq, Eq)]
pub struct ContainerInspect {
    /// Names of the attached networks, in any order.
    pub networks: Option<Vec<String>>,
    /// The port map, in any order.
    pub ports: Option<Vec<PortMapEntry>>,
    /// Number of mounts, when the response lists them.
    pub mounts: Option<usize>,
    pub state: Option<InspectState>,
}

/// A port-map key split at its first `/`; a key without one is all port,
/// with protocol `tcp`.
pub open spec fn port_key_parts(key: Seq<char>) -> (Seq<char>, Seq<char>) {
    if exists|k: int| first_at(key, '/', k) {
        let k = choose|k: int| first_at(key, '/', k);
        (key.take(k), key.skip(k + 1))
    } else {
        (key, "tcp"@)
    }
}

/// The port an entry describes, or `None` when its port part is not a
/// valid port number; the public port is the first binding's host port
/// when that parses.
pub open spec fn port_entry(e: PortMapEntry) -> Option<PortSummary> {
    let (port, proto) = port_key_parts(e.key@);
    match spec_parse_u16(port) {
        None => None,
        Some(private) => Some(PortSummary {
            private,
            public: match first_binding_host(e.bindings) {
                Some(h) => spec_parse_u16(h),
                None => None,
            },
            proto: spec_proto_from(Some(proto)),
        }),
    }
}

/// The ports of a port map, in map order, skipping malformed keys.
pub open spec fn port_entries(es: Seq<PortMapEntry>) -> Seq<PortSummary>
    decreases es.len(),
{
    if es.len() == 0 {
        Seq::empty()
    } else {
        let rest = port_entries(es.drop_last());
        match port_entry(es.last()) {
            Some(p) => rest.push(p),
            None => rest,
        }
    }
}

/// The published ports of an inspect response, sorted by
/// `(private, proto)`.
pub open spec fn inspect_ports(r: ContainerInspect) -> Seq<PortSummary> {
    match r.ports {
        Some(es) => sort_ports_spec(port_entries(es@)),
        None => Seq::empty(),
    }
}

/// Mount count of an inspect response; 0 when it lists none.
pub open spec fn inspect_mount_count(r: ContainerInspect) -> usize {
    match r.mounts {
        Some(n) => n,
        None => 0,
    }
}

/// The seed-time status upgrade: `Crashed` when the inspected state maps
/// to it (exited after an OOM kill or with a non-zero code, or dead);
/// nothing otherwise.
pub open spec fn seed_status_override(r: ContainerInspect) -> Option<Status> {
    match r.state {
        None => None,
        Some(st) => if spec_map_status(opt_chars(st.status), st.oom_killed, st.exit_code)
            == Status::Crashed {
            Some(Status::Crashed)
        } else {
            None
        },
    }
}

/// Deterministic primary network of an inspect response: the smallest
/// network name, `"none"` without networks.
pub fn pick_primary_network(resp: &ContainerInspect) -> (r: String)
    ensures
        r@ == primary_network(resp.networks),
{
    primary_network_of(&resp.networks)
}

fn split_port_key(key: &str) -> (r: (String, String))
    ensures
        r.0@ == port_key_parts(key@).0,
        r.1@ == port_key_parts(key@).1,
{
    match find_char(key, '/') {
        Some(k) => {
            let n = key.unicode_len();
            proof {
                assert(first_at(key@, '/', k as int));
                assert forall|m: int| first_at(key@, '/', m) implies m == k by {}
                assert(key@.subrange(0, k as int) =~= key@.take(k as int));
                assert(key@.subrange(k + 1, n as int) =~= key@.skip(k + 1));
            }
            (String::from_str(key.substring_char(0, k)), String::from_str(key.substring_char(k + 1, n)))
        },
        None => {
            proof {
                reveal_strlit("tcp");
            }
            (String::from_str(key), String::from_str("tcp"))
        },
    }
}

fn parse_port_entry(e: &PortMapEntry) -> (r: Option<PortSummary>)
    ensures
        r == port_entry(*e),
{
    let (port, proto) = split_port_key(e.key.as_str());
    match parse_u16(port.as_str()) {
        None => None,
        Some(private) => {
            let public = match first_binding_host_port(&e.bindings) {
                Some(h) => parse_u16(h.as_str()),
                None => None,
            };
            let proto = PortProto::from_bollard(Some(proto.as_str()));
            Some(PortSummary { private, public, proto })
        },
    }
}

/// The published ports of an inspect response: each `"PORT/PROTO"` key
/// whose port parses (a key without `/` counts as TCP), with the first
/// binding's host port as the public port, sorted by `(private, proto)`.
pub fn extract_ports(resp: &ContainerInspect) -> (r: Vec<PortSummary>)
    ensures
        r@ == inspect_ports(*resp),
{
    match &resp.ports {
        None => Vec::new(),
        Some(es) => {
            let mut raw: Vec<PortSummary> = Vec::new();
            let mut i: usize = 0;
            while i < es.len()
                invariant
                    i <= es@.len(),
                    raw@ == port_entries(es@.take(i as int)),
                decreases es@.len() - i,
            {
                let p = parse_port_entry(&es[i]);
                proof {
                    assert(es@.take(i as int + 1).drop_last() =~= es@.take(i as int));
                    assert(es@.take(i as int + 1).last() == es@[i as int]);
                }
                match p {
                    Some(q) => raw.push(q),
                    None => {},
                }
                i = i + 1;
            }
            proof {
                assert(es@.take(es@.len() as int) =~= es@);
            }
            sort_ports(&raw)
        },
    }
}

fn mount_count_of(resp: &ContainerInspect) -> (n: usize)
    ensures
        n == inspect_mount_count(*resp),
{
    match resp.mounts {
        Some(n) => n,
        None => 0,
    }
}

/// Enrichment from a `start` event's inspect: primary network, ports and
/// mount count; no status change.
pub fn enriched_on_start(id: &str, resp: &ContainerInspect) -> (e: EnrichedSnapshot)
    ensures
        e.id@ == id@,
        e.group_key@ == primary_network(resp.networks),
        e.ports@ == inspect_ports(*resp),
        e.mount_count == inspect_mount_count(*resp),
        e.status_override == None::<Status>,
{
    EnrichedSnapshot {
        id: String::from_str(id),
        group_key: pick_primary_network(resp),
        ports: extract_ports(resp),
        mount_count: mount_count_of(resp),
        status_override: None,
    }
}

/// Enrichment from the startup seed's inspect: as for a `start` event,
/// plus the upgrade of an already crashed container to `Crashed`.
pub fn enriched_on_seed(id: &str, resp: &ContainerInspect) -> (e: EnrichedSnapshot)
    ensures
        e.id@ == id@,
        e.group_key@ == primary_network(resp.networks),
        e.ports@ == inspect_ports(*resp),
        e.mount_count == inspect_mount_count(*resp),
        e.status_override == seed_status_override(*resp),
{
    let status_override = match &resp.state {
        None => None,
        Some(st) => {
            let new = match &st.status {
                Some(s) => map_status(s.as_str(), st.oom_killed, st.exit_code),
                None => {
                    proof {
                        reveal_strlit("");
                        assert(""@ =~= Seq::<char>::empty());
                    }
                    map_status("", st.oom_killed, st.exit_code)
                },
            };
            if new == Status::Crashed {
                Some(Status::Crashed)
            } else {
                None
            }
        },
    };
    EnrichedSnapshot {
        id: String::from_str(id),
        group_key: pick_primary_network(resp),
        ports: extract_ports(resp),
        mount_count: mount_count_of(resp),
        status_override,
    }
}

/// The seed upgrade marks a container `Crashed` exactly when it is dead,
/// or exited after an OOM kill or with a non-zero exit code; every other
/// inspected state (and a response without a state) leaves it alone.
pub proof fn lemma_seed_override_exact(r: ContainerInspect)
    ensures
        seed_status_override(r) == (match r.state {
            None => None,
            Some(st) => if opt_chars(st.status) == "dead"@ || (opt_chars(st.status) == "exited"@ && (
            st.oom_killed == Some(true) || (st.exit_code is Some && st.exit_code->0 != 0))) {
                Some(Status::Crashed)
            } else {
                None
            },
        }),
{
    reveal_strlit("running");
    reveal_strlit("paused");
    reveal_strlit("restarting");
    reveal_strlit("dead");
    reveal_strlit("exited");
    assert("running"@.len() != "dead"@.len() && "paused"@.len() != "dead"@.len()
        && "restarting"@.len() != "dead"@.len());
    assert("running"@.len() != "exited"@.len() && "restarting"@.len() != "exited"@.len());
    assert("paused"@[0] != "exited"@[0]);
    assert("running"@ != "dead"@ && "paused"@ != "dead"@ && "restarting"@ != "dead"@);
    assert("running"@ != "exited"@ && "paused"@ != "exited"@ && "restarting"@ != "exited"@);
}

/// The seed upgrade only ever promotes to `Crashed`: a running container
/// is never overridden.
pub proof fn lemma_seed_override_only_crashes(r: ContainerInspect)
    ensures
        seed_status_override(r) is Some ==> seed_status_override(r) == Some(Status::Crashed),
        (r.state matches Some(st) && opt_chars(st.status) == "running"@)
            ==> seed_status_override(r) is None,
{
}

} // verus!
