//! Daemon-independent domain types: containers, ports, health and mounts,
//! and the policies that map raw daemon fields onto them.

use vstd::prelude::*;
use vstd::string::*;
use crate::text::{str_eq, trim_start, trim_start_char, first_chars, take_chars, min_name, min_string, views};
use crate::theme::Status;

verus! {

/// Port-mapping protocol.
#[derive(Debug, Clone, Copy, PartialEq, Eq, Hash, PartialOrd, Ord, Structural)]
pub enum PortProto {
    Tcp,
    Udp,
    Sctp,
}

/// Wire name of a protocol.
pub open spec fn proto_name(p: PortProto) -> Seq<char> {
    match p {
        PortProto::Tcp => "tcp"@,
        PortProto::Udp => "udp"@,
        PortProto::Sctp => "sctp"@,
    }
}

/// Code point of `c` after ASCII lower-casing (other characters unchanged).
pub open spec fn lower_code(c: char) -> u32 {
    if 'A' <= c && c <= 'Z' {
        ((c as u32) + 32) as u32
    } else {
        c as u32
    }
}

/// Whether `s`, ASCII lower-cased, spells `word`.
pub open spec fn lower_equals(s: Seq<char>, word: Seq<char>) -> bool {
    s.len() == word.len() && forall|i: int| 0 <= i < s.len() ==> lower_code(#[trigger] s[i]) == word[i] as u32
}

/// The protocol a raw protocol string names: `udp` and `sctp` in any ASCII
/// case, everything else (including a missing string) is TCP.
pub open spec fn spec_proto_from(s: Option<Seq<char>>) -> PortProto {
    match s {
        None => PortProto::Tcp,
        Some(t) => if lower_equals(t, "udp"@) {
            PortProto::Udp
        } else if lower_equals(t, "sctp"@) {
            PortProto::Sctp
        } else {
            PortProto::Tcp
        },
    }
}

fn lower_matches(c: char, w: char) -> (r: bool)
    ensures
        r == (lower_code(c) == w as u32),
{
    if 'A' <= c && c <= 'Z' {
        (c as u32) + 32 == (w as u32)
    } else {
        c == w
    }
}

/// Whether `s`, lower-cased, spells `word`.
fn lower_eq(s: &str, word: &str) -> (r: bool)
    ensures
        r == lower_equals(s@, word@),
{
    let n = s.unicode_len();
    let m = word.unicode_len();
    if n != m {
        return false;
    }
    let mut i: usize = 0;
    while i < n
        invariant
            n == s@.len(),
            m == word@.len(),
            n == m,
            i <= n,
            forall|j: int| 0 <= j < i ==> lower_code(#[trigger] s@[j]) == word@[j] as u32,
        decreases n - i,
    {
        if !lower_matches(s.get_char(i), word.get_char(i)) {
            return false;
        }
        i = i + 1;
    }
    true
}

impl PortProto {
    /// Wire-string form ("tcp"/"udp"/"sctp").
    pub fn as_str(self) -> (s: &'static str)
        ensures
            s@ == proto_name(self),
    {
        match self {
            PortProto::Tcp => "tcp",
            PortProto::Udp => "udp",
            PortProto::Sctp => "sctp",
        }
    }

    /// Parse a protocol string (case-insensitive); unknown, empty or
    /// missing strings fall back to TCP, Docker's default.
    pub fn from_bollard(s: Option<&str>) -> (p: PortProto)
        ensures
            p == spec_proto_from(match s { Some(t) => Some(t@), None => None }),
    {
        match s {
            None => PortProto::Tcp,
            Some(t) => {
                if lower_eq(t, "udp") {
                    PortProto::Udp
                } else if lower_eq(t, "sctp") {
                    PortProto::Sctp
                } else {
                    PortProto::Tcp
                }
            },
        }
    }
}

/// Wire names round-trip: parsing a protocol's own name gives it back.
pub proof fn lemma_proto_round_trip(p: PortProto)
    ensures
        spec_proto_from(Some(proto_name(p))) == p,
{
    reveal_strlit("tcp");
    reveal_strlit("udp");
    reveal_strlit("sctp");
    let u = "udp"@;
    let t = "tcp"@;
    let c = "sctp"@;
    assert(lower_equals(u, u)) by {
        assert forall|i: int| 0 <= i < u.len() implies lower_code(#[trigger] u[i]) == u[i] as u32 by {}
    }
    assert(lower_equals(c, c)) by {
        assert forall|i: int| 0 <= i < c.len() implies lower_code(#[trigger] c[i]) == c[i] as u32 by {}
    }
    assert(!lower_equals(t, u)) by {
        assert(lower_code(t[0]) != u[0] as u32);
    }
    assert(!lower_equals(t, c));
    assert(!lower_equals(c, u));
}

/// One published port mapping: `private` inside the container, `public`
/// on the host when published.
#[derive(Debug, Clone, Copy, PartialEq, Eq, Hash, Structural)]
pub struct PortSummary {
    pub private: u16,
    pub public: Option<u16>,
    pub proto: PortProto,
}

/// Rank of a protocol in the port ordering.
pub open spec fn proto_rank(p: PortProto) -> int {
    match p {
        PortProto::Tcp => 0,
        PortProto::Udp => 1,
        PortProto::Sctp => 2,
    }
}

/// Ports are ordered by `(private, proto)`.
pub open spec fn port_key_lt(a: PortSummary, b: PortSummary) -> bool {
    a.private < b.private || (a.private == b.private && proto_rank(a.proto) < proto_rank(b.proto))
}

/// Index of the first port in `s` whose key is strictly greater than `x`'s.
pub open spec fn first_greater(s: Seq<PortSummary>, x: PortSummary) -> int
    decreases s.len(),
{
    if s.len() == 0 {
        0
    } else if port_key_lt(x, s[0]) {
        0
    } else {
        1 + first_greater(s.drop_first(), x)
    }
}

/// Stable insertion of `x` into `s`: after every element whose key is not
/// greater than `x`'s leading run.
pub open spec fn insert_port(s: Seq<PortSummary>, x: PortSummary) -> Seq<PortSummary> {
    let p = first_greater(s, x);
    s.take(p).push(x) + s.skip(p)
}

/// The stable sort of `s` by `(private, proto)`.
pub open spec fn sort_ports_spec(s: Seq<PortSummary>) -> Seq<PortSummary>
    decreases s.len(),
{
    if s.len() == 0 {
        s
    } else {
        insert_port(sort_ports_spec(s.drop_last()), s.last())
    }
}

proof fn lemma_first_greater_bounds(s: Seq<PortSummary>, x: PortSummary)
    ensures
        0 <= first_greater(s, x) <= s.len(),
    decreases s.len(),
{
    if s.len() > 0 {
        lemma_first_greater_bounds(s.drop_first(), x);
    }
}

proof fn lemma_first_greater_scan(s: Seq<PortSummary>, x: PortSummary, i: int)
    requires
        0 <= i <= s.len(),
        forall|j: int| 0 <= j < i ==> !port_key_lt(x, #[trigger] s[j]),
    ensures
        first_greater(s, x) == i + first_greater(s.skip(i), x),
    decreases i,
{
    if i > 0 {
        lemma_first_greater_scan(s.drop_first(), x, i - 1);
        assert(s.drop_first().skip(i - 1) =~= s.skip(i));
    } else {
        assert(s.skip(0) =~= s);
    }
}

/// Whether `s` is in non-decreasing `(private, proto)` order.
pub open spec fn ports_sorted(s: Seq<PortSummary>) -> bool {
    forall|i: int, j: int| 0 <= i < j < s.len() ==> !port_key_lt(#[trigger] s[j], #[trigger] s[i])
}

proof fn lemma_first_greater_split(s: Seq<PortSummary>, x: PortSummary)
    requires
        ports_sorted(s),
    ensures
        0 <= first_greater(s, x) <= s.len(),
        forall|k: int| 0 <= k < first_greater(s, x) ==> !port_key_lt(x, #[trigger] s[k]),
        forall|k: int| first_greater(s, x) <= k < s.len() ==> port_key_lt(x, #[trigger] s[k]),
    decreases s.len(),
{
    lemma_first_greater_bounds(s, x);
    if s.len() > 0 {
        if port_key_lt(x, s[0]) {
            assert forall|k: int| 0 <= k < s.len() implies port_key_lt(x, #[trigger] s[k]) by {
                if k > 0 {
                    assert(!port_key_lt(s[k], s[0]));
                }
            }
        } else {
            let t = s.drop_first();
            assert forall|i: int, j: int| 0 <= i < j < t.len() implies !port_key_lt(#[trigger] t[j], #[trigger] t[i]) by {
                assert(t[j] == s[j + 1] && t[i] == s[i + 1]);
            }
            lemma_first_greater_split(t, x);
            assert forall|k: int| 0 <= k < first_greater(s, x) implies !port_key_lt(x, #[trigger] s[k]) by {
                if k > 0 {
                    assert(s[k] == t[k - 1]);
                }
            }
            assert forall|k: int| first_greater(s, x) <= k < s.len() implies port_key_lt(x, #[trigger] s[k]) by {
                assert(s[k] == t[k - 1]);
            }
        }
    }
}

proof fn lemma_insert_port_sorted(s: Seq<PortSummary>, x: PortSummary)
    requires
        ports_sorted(s),
    ensures
        ports_sorted(insert_port(s, x)),
        insert_port(s, x).to_multiset() =~= s.to_multiset().insert(x),
{
    broadcast use vstd::seq_lib::group_seq_properties;
    lemma_first_greater_split(s, x);
    let p = first_greater(s, x);
    let r = insert_port(s, x);
    assert(r.len() == s.len() + 1);
    assert forall|k: int| 0 <= k < r.len() implies #[trigger] r[k] == (if k < p { s[k] } else if k == p { x } else { s[k - 1] }) by {}
    assert forall|i: int, j: int| 0 <= i < j < r.len() implies !port_key_lt(#[trigger] r[j], #[trigger] r[i]) by {
        if j < p {
        } else if j == p {
            assert(!port_key_lt(x, s[i]));
        } else if i < p {
            assert(!port_key_lt(s[j - 1], s[i]));
        } else if i == p {
            assert(port_key_lt(x, s[j - 1]));
        } else {
            assert(!port_key_lt(s[j - 1], s[i - 1]));
        }
    }
    vstd::seq_lib::lemma_multiset_commutative(s.take(p).push(x), s.skip(p));
    vstd::seq_lib::lemma_multiset_commutative(s.take(p), s.skip(p));
    assert(s.take(p) + s.skip(p) =~= s);
}

/// The port order is a sort: its output is in `(private, proto)` order
/// and holds exactly the ports of its input, as a multiset.
pub proof fn lemma_sort_ports_sorts(s: Seq<PortSummary>)
    ensures
        ports_sorted(sort_ports_spec(s)),
        sort_ports_spec(s).to_multiset() =~= s.to_multiset(),
    decreases s.len(),
{
    broadcast use vstd::seq_lib::group_seq_properties;
    if s.len() > 0 {
        lemma_sort_ports_sorts(s.drop_last());
        lemma_insert_port_sorted(sort_ports_spec(s.drop_last()), s.last());
        assert(s.drop_last().push(s.last()) =~= s);
    }
}

fn port_lt(a: &PortSummary, b: &PortSummary) -> (r: bool)
    ensures
        r == port_key_lt(*a, *b),
{
    let ra: u8 = match a.proto { PortProto::Tcp => 0, PortProto::Udp => 1, PortProto::Sctp => 2 };
    let rb: u8 = match b.proto { PortProto::Tcp => 0, PortProto::Udp => 1, PortProto::Sctp => 2 };
    a.private < b.private || (a.private == b.private && ra < rb)
}

/// Stable sort of a port list by `(private, proto)` — the order both the
/// list and the inspect paths present ports in.
pub fn sort_ports(ports: &Vec<PortSummary>) -> (out: Vec<PortSummary>)
    ensures
        out@ == sort_ports_spec(ports@),
{
    let mut out: Vec<PortSummary> = Vec::new();
    let mut i: usize = 0;
    while i < ports.len()
        invariant
            i <= ports@.len(),
            out@ == sort_ports_spec(ports@.take(i as int)),
        decreases ports@.len() - i,
    {
        let x = ports[i];
        let mut p: usize = 0;
        while p < out.len() && !port_lt(&x, &out[p])
            invariant
                p <= out@.len(),
                forall|j: int| 0 <= j < p ==> !port_key_lt(x, #[trigger] out@[j]),
            decreases out@.len() - p,
        {
            p = p + 1;
        }
        proof {
            lemma_first_greater_scan(out@, x, p as int);
            if p < out@.len() {
                assert(out@.skip(p as int)[0] == out@[p as int]);
            }
            assert(first_greater(out@, x) == p);
            assert(ports@.take(i as int + 1).drop_last() =~= ports@.take(i as int));
            assert(ports@.take(i as int + 1).last() == x);
        }
        let ghost before = out@;
        out.insert(p, x);
        proof {
            assert(out@ =~= before.take(p as int).push(x) + before.skip(p as int));
        }
        i = i + 1;
    }
    proof {
        assert(ports@.take(ports@.len() as int) =~= ports@);
    }
    out
}

/// The renderer's view of one container.
#[derive(Debug, Clone, PartialEq, Eq)]
pub struct ContainerSnapshot {
    /// Docker container id.
    pub id: String,
    /// Display name, without Docker's leading `/`.
    pub name: String,
    /// Lifecycle status.
    pub status: Status,
    /// Primary network name; `"none"` when attached to no network.
    pub group_key: String,
    /// Published ports, sorted by `(private, proto)`.
    pub ports: Vec<PortSummary>,
    /// Number of mount points.
    pub mount_count: usize,
}

impl Default for ContainerSnapshot {
    fn default() -> (s: Self)
        ensures
            s.id@ == Seq::<char>::empty(),
            s.name@ == Seq::<char>::empty(),
            s.status == Status::Stopped,
            s.group_key@ == "none"@,
            s.ports@ == Seq::<PortSummary>::empty(),
            s.mount_count == 0,
    {
        ContainerSnapshot {
            id: String::new(),
            name: String::new(),
            status: Status::Stopped,
            group_key: String::from_str("none"),
            ports: Vec::new(),
            mount_count: 0,
        }
    }
}

/// Fields an inspect call backfills for a container that the list and
/// event paths cannot supply.
#[derive(Debug, Clone, PartialEq, Eq)]
pub struct EnrichedSnapshot {
    pub id: String,
    pub group_key: String,
    pub ports: Vec<PortSummary>,
    pub mount_count: usize,
    pub status_override: Option<Status>,
}

/// Container health as the detail panel shows it.
#[derive(Debug, Clone, PartialEq, Eq)]
pub enum HealthSummary {
    Absent,
    Starting,
    Healthy,
    Unhealthy { failing_streak: u64, last_output: String },
}

/// One mount point of a container.
#[derive(Debug, Clone, PartialEq, Eq)]
pub struct MountSummary {
    pub kind: String,
    pub source: String,
    pub destination: String,
    pub rw: bool,
}

/// Everything the detail panel shows about one container.
#[derive(Debug, Clone, PartialEq, Eq)]
pub struct DetailSnapshot {
    pub id: String,
    pub name: String,
    pub status: Status,
    pub health: HealthSummary,
    pub started_at_iso: String,
    pub restart_count: u64,
    pub restart_policy: String,
    pub image_human: String,
    pub image_digest: String,
    pub network_mode: String,
    pub networks: Vec<String>,
    pub ports: Vec<PortSummary>,
    pub mounts: Vec<MountSummary>,
}

/// The status a Docker state string maps to, given the optional OOM and
/// exit-code signals.
pub open spec fn spec_map_status(state: Seq<char>, oom_killed: Option<bool>, exit_code: Option<i64>) -> Status {
    if state == "running"@ {
        Status::Running
    } else if state == "paused"@ {
        Status::Paused
    } else if state == "restarting"@ {
        Status::Restarting
    } else if state == "dead"@ {
        Status::Crashed
    } else if state == "exited"@ {
        if oom_killed == Some(true) || (exit_code is Some && exit_code->0 != 0) {
            Status::Crashed
        } else {
            Status::Stopped
        }
    } else {
        Status::Stopped
    }
}

/// The status of each Docker state: `running`, `paused` and `restarting`
/// keep their names; `dead` is `Crashed`; `exited` is `Crashed` after an
/// OOM kill or with a non-zero exit code and `Stopped` otherwise; every
/// other state (`created`, `removing`, unknown, empty) is `Stopped`. The
/// OOM flag and exit code matter for `exited` alone.
pub proof fn lemma_map_status_table(state: Seq<char>, oom_killed: Option<bool>, exit_code: Option<i64>)
    ensures
        state == "running"@ ==> spec_map_status(state, oom_killed, exit_code) == Status::Running,
        state == "paused"@ ==> spec_map_status(state, oom_killed, exit_code) == Status::Paused,
        state == "restarting"@ ==> spec_map_status(state, oom_killed, exit_code) == Status::Restarting,
        state == "dead"@ ==> spec_map_status(state, oom_killed, exit_code) == Status::Crashed,
        state == "exited"@ ==> (spec_map_status(state, oom_killed, exit_code) == Status::Crashed
            <==> (oom_killed == Some(true) || (exit_code is Some && exit_code->0 != 0))),
        state == "exited"@ && spec_map_status(state, oom_killed, exit_code) != Status::Crashed
            ==> spec_map_status(state, oom_killed, exit_code) == Status::Stopped,
        state != "running"@ && state != "paused"@ && state != "restarting"@ && state != "dead"@ && state
            != "exited"@ ==> spec_map_status(state, oom_killed, exit_code) == Status::Stopped,
        state != "exited"@ ==> spec_map_status(state, oom_killed, exit_code) == spec_map_status(state, None, None),
{
    reveal_strlit("running");
    reveal_strlit("paused");
    reveal_strlit("restarting");
    reveal_strlit("dead");
    reveal_strlit("exited");
    assert("running"@.len() != "dead"@.len() && "paused"@.len() != "dead"@.len()
        && "restarting"@.len() != "dead"@.len());
    assert("running"@.len() != "exited"@.len() && "restarting"@.len() != "exited"@.len());
    assert("paused"@[0] != "exited"@[0]);
    assert("running"@.len() != "paused"@.len() && "running"@.len() != "restarting"@.len()
        && "paused"@.len() != "restarting"@.len());
}

/// Map a Docker container state string plus optional OOM / exit-code
/// signals to a [`Status`]. `dead`, and `exited` after an OOM kill or with a
/// non-zero exit code, are `Crashed`; unknown states are `Stopped`.
pub fn map_status(state: &str, oom_killed: Option<bool>, exit_code: Option<i64>) -> (s: Status)
    ensures
        s == spec_map_status(state@, oom_killed, exit_code),
{
    if str_eq(state, "running") {
        Status::Running
    } else if str_eq(state, "paused") {
        Status::Paused
    } else if str_eq(state, "restarting") {
        Status::Restarting
    } else if str_eq(state, "dead") {
        Status::Crashed
    } else if str_eq(state, "exited") {
        let oom = match oom_killed { Some(b) => b, None => false };
        let nonzero = match exit_code { Some(c) => c != 0, None => false };
        if oom || nonzero {
            Status::Crashed
        } else {
            Status::Stopped
        }
    } else {
        Status::Stopped
    }
}

} // verus!

verus! {

/// One port entry of a container-list response.
#[derive(Debug, Clone, PartialEq, Eq)]
pub struct SummaryPort {
    pub private_port: u16,
    pub public_port: Option<u16>,
    /// Protocol string as the daemon reports it (`tcp`, `udp`, ...).
    pub typ: Option<String>,
}

/// The fields of one container-list entry that the snapshot mapping reads.
#[derive(Debug, Clone, PartialEq, Eq)]
pub struct ContainerSummary {
    pub id: Option<String>,
    /// Names as Docker reports them (prefixed with `/`).
    pub names: Option<Vec<String>>,
    /// Lower-case state string (`running`, `exited`, ...).
    pub state: Option<String>,
    /// Names of the attached networks, in any order; `None` when the
    /// response carries no network settings.
    pub networks: Option<Vec<String>>,
    pub ports: Option<Vec<SummaryPort>>,
}

/// The plain port a list entry describes.
pub open spec fn summary_port_view(p: SummaryPort) -> PortSummary {
    PortSummary {
        private: p.private_port,
        public: p.public_port,
        proto: spec_proto_from(match p.typ { Some(t) => Some(t@), None => None }),
    }
}

/// Optional string to its characters, empty when absent.
pub open spec fn opt_chars(s: Option<String>) -> Seq<char> {
    match s {
        Some(t) => t@,
        None => Seq::empty(),
    }
}

/// Display name: the first name without its leading slashes, else the
/// first twelve characters of the id.
pub open spec fn summary_name(id: Seq<char>, names: Option<Vec<String>>) -> Seq<char> {
    match names {
        Some(ns) => if ns@.len() > 0 {
            trim_start(ns@[0]@, '/')
        } else {
            first_chars(id, 12)
        },
        None => first_chars(id, 12),
    }
}

/// Primary network: the smallest network name, `"none"` without networks.
pub open spec fn primary_network(networks: Option<Vec<String>>) -> Seq<char> {
    match networks {
        Some(ks) => if ks@.len() > 0 {
            min_name(views(ks@))
        } else {
            "none"@
        },
        None => "none"@,
    }
}

/// Ports of a list entry, sorted by `(private, proto)`.
pub open spec fn summary_ports(ports: Option<Vec<SummaryPort>>) -> Seq<PortSummary> {
    match ports {
        Some(ps) => sort_ports_spec(ps@.map_values(|p: SummaryPort| summary_port_view(p))),
        None => Seq::empty(),
    }
}

pub(crate) fn primary_network_of(networks: &Option<Vec<String>>) -> (r: String)
    ensures
        r@ == primary_network(*networks),
{
    match networks {
        Some(ks) => {
            if ks.len() > 0 {
                min_string(ks)
            } else {
                String::from_str("none")
            }
        },
        None => String::from_str("none"),
    }
}

fn ports_of_summary(ports: &Option<Vec<SummaryPort>>) -> (r: Vec<PortSummary>)
    ensures
        r@ == summary_ports(*ports),
{
    match ports {
        None => Vec::new(),
        Some(ps) => {
            let mut raw: Vec<PortSummary> = Vec::new();
            let mut i: usize = 0;
            while i < ps.len()
                invariant
                    i <= ps@.len(),
                    raw@ =~= ps@.take(i as int).map_values(|p: SummaryPort| summary_port_view(p)),
                decreases ps@.len() - i,
            {
                let p = &ps[i];
                let proto = match &p.typ {
                    Some(t) => PortProto::from_bollard(Some(t.as_str())),
                    None => PortProto::from_bollard(None),
                };
                raw.push(PortSummary { private: p.private_port, public: p.public_port, proto });
                proof {
                    assert(ps@.take(i as int + 1) =~= ps@.take(i as int).push(ps@[i as int]));
                }
                i = i + 1;
            }
            proof {
                assert(ps@.take(ps@.len() as int) =~= ps@);
            }
            sort_ports(&raw)
        },
    }
}

/// Map one container-list entry to a [`ContainerSnapshot`]: the display
/// name loses Docker's leading `/` (falling back to a short id), the state
/// maps through [`map_status`] without exit information, the group is the
/// smallest network name, ports come sorted, and the mount count starts
/// at zero (the inspect path fills it in).
pub fn from_bollard_summary(summary: &ContainerSummary) -> (snap: ContainerSnapshot)
    ensures
        snap.id@ == opt_chars(summary.id),
        snap.name@ == summary_name(opt_chars(summary.id), summary.names),
        snap.status == spec_map_status(opt_chars(summary.state), None, None),
        snap.group_key@ == primary_network(summary.networks),
        snap.ports@ == summary_ports(summary.ports),
        snap.mount_count == 0,
{
    let id = match &summary.id {
        Some(s) => String::from_str(s.as_str()),
        None => String::new(),
    };
    let name = match &summary.names {
        Some(ns) => {
            if ns.len() > 0 {
                trim_start_char(ns[0].as_str(), '/')
            } else {
                take_chars(id.as_str(), 12)
            }
        },
        None => take_chars(id.as_str(), 12),
    };
    let status = match &summary.state {
        Some(s) => map_status(s.as_str(), None, None),
        None => {
            proof {
                reveal_strlit("");
                assert(""@ =~= Seq::<char>::empty());
            }
            map_status("", None, None)
        },
    };
    let group_key = primary_network_of(&summary.networks);
    let ports = ports_of_summary(&summary.ports);
    ContainerSnapshot { id, name, status, group_key, ports, mount_count: 0 }
}

} // verus!
