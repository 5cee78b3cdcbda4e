//! Reconciliation decisions of the Docker producer: what each startup
//! list entry and each daemon event turns into. The producer task performs
//! the sends, spawns and aborts these decisions name.

use vstd::prelude::*;
use vstd::string::*;
use crate::docker::domain::{map_status, spec_map_status, ContainerSnapshot, PortSummary};
use crate::text::{first_chars, parse_i64, spec_parse_i64, str_eq, take_chars, trim_start, trim_start_char};
use crate::theme::Status;

verus! {

/// What a daemon event carries that reconciliation reads.
#[derive(Debug, Clone, PartialEq, Eq)]
pub struct ContainerEvent {
    /// Whether the event is about a container (not a network, image, ...).
    pub is_container: bool,
    /// The action (`create`, `start`, `die`, ...).
    pub action: Option<String>,
    /// The actor's id.
    pub actor_id: Option<String>,
    /// The actor's `name` attribute.
    pub name_attr: Option<String>,
    /// The actor's `exitCode` attribute.
    pub exit_code_attr: Option<String>,
}

/// What happens to a container's stats stream.
#[derive(Debug, Clone, Copy, PartialEq, Eq, Structural)]
pub enum StatsTask {
    /// Leave it as it is.
    Keep,
    /// Start one unless a live one exists.
    SpawnIfAbsent,
    /// Stop it and forget it.
    Abort,
}

/// The reaction to one daemon event.
#[derive(Debug, Clone, PartialEq, Eq)]
pub enum EventReaction {
    /// Not an event this visualizer follows.
    Ignore,
    /// A new container: announce its snapshot.
    Added(ContainerSnapshot),
    /// A status change, with what to do to the stats stream and whether to
    /// fire an enriching inspect.
    StatusChanged { id: String, status: Status, stats: StatsTask, enrich: bool },
    /// The container is gone: stop its stats stream and announce removal.
    Removed(String),
}

/// Characters of an optional string, empty when absent.
pub open spec fn chars_or_empty(s: Option<String>) -> Seq<char> {
    match s {
        Some(t) => t@,
        None => Seq::empty(),
    }
}

/// Display name of an event's container: the `name` attribute without
/// leading slashes, else the first twelve characters of the id.
pub open spec fn event_name(name_attr: Option<String>, id: Seq<char>) -> Seq<char> {
    match name_attr {
        Some(n) => trim_start(n@, '/'),
        None => first_chars(id, 12),
    }
}

/// The exit code a `die` event reports, when its attribute parses.
pub open spec fn event_exit_code(e: ContainerEvent) -> Option<i64> {
    match e.exit_code_attr {
        Some(s) => spec_parse_i64(s@),
        None => None,
    }
}

/// Whether a reaction is the status change `(id, status, stats, enrich)`.
pub open spec fn is_status_change(r: EventReaction, id: Seq<char>, status: Status, stats: StatsTask, enrich: bool) -> bool {
    r matches EventReaction::StatusChanged { id: i, status: s, stats: t, enrich: x }
        && i@ == id && s == status && t == stats && x == enrich
}

/// The reaction a well-formed container event calls for.
pub open spec fn event_reaction_ok(e: ContainerEvent, r: EventReaction) -> bool {
    let a = chars_or_empty(e.action);
    let id = chars_or_empty(e.actor_id);
    if !e.is_container || id.len() == 0 {
        r == EventReaction::Ignore
    } else if a == "create"@ {
        r matches EventReaction::Added(s) && s.id@ == id && s.name@ == event_name(e.name_attr, id)
            && s.status == Status::Stopped && s.group_key@ == "none"@
            && s.ports@ == Seq::<PortSummary>::empty() && s.mount_count == 0
    } else if a == "start"@ {
        is_status_change(r, id, Status::Running, StatsTask::SpawnIfAbsent, true)
    } else if a == "unpause"@ {
        is_status_change(r, id, Status::Running, StatsTask::SpawnIfAbsent, false)
    } else if a == "pause"@ {
        is_status_change(r, id, Status::Paused, StatsTask::Keep, false)
    } else if a == "restart"@ {
        is_status_change(r, id, Status::Restarting, StatsTask::Keep, false)
    } else if a == "die"@ {
        is_status_change(r, id, spec_map_status("exited"@, None, event_exit_code(e)), StatsTask::Abort, false)
    } else if a == "oom"@ {
        is_status_change(r, id, Status::Crashed, StatsTask::Abort, false)
    } else if a == "destroy"@ {
        r matches EventReaction::Removed(i) && i@ == id
    } else {
        r == EventReaction::Ignore
    }
}

/// Display name for a container announced by an event.
pub fn container_name_from_event(name_attr: &Option<String>, id: &str) -> (n: String)
    ensures
        n@ == event_name(*name_attr, id@),
{
    match name_attr {
        Some(n) => trim_start_char(n.as_str(), '/'),
        None => take_chars(id, 12),
    }
}

fn status_change(id: &str, status: Status, stats: StatsTask, enrich: bool) -> (r: EventReaction)
    ensures
        is_status_change(r, id@, status, stats, enrich),
{
    EventReaction::StatusChanged { id: String::from_str(id), status, stats, enrich }
}

/// Decide the reaction to one daemon event: `create` announces a stopped
/// container on no network, `start`/`unpause` mark it running and make
/// sure its stats stream runs (`start` also fires an enriching inspect),
/// `pause`/`restart` change its status, `die` stops it with the reported
/// exit code, `oom` crashes it, `destroy` removes it; everything else,
/// non-container events and events without an actor id are ignored.
pub fn react_to_event(e: &ContainerEvent) -> (r: EventReaction)
    ensures
        event_reaction_ok(*e, r),
{
    let id: &str = match &e.actor_id {
        Some(s) => s.as_str(),
        None => {
            proof {
                reveal_strlit("");
            }
            ""
        },
    };
    proof {
        assert(id@ =~= chars_or_empty(e.actor_id));
    }
    if !e.is_container || id.unicode_len() == 0 {
        return EventReaction::Ignore;
    }
    let action: &str = match &e.action {
        Some(s) => s.as_str(),
        None => {
            proof {
                reveal_strlit("");
            }
            ""
        },
    };
    proof {
        assert(action@ =~= chars_or_empty(e.action));
    }
    if str_eq(action, "create") {
        let name = container_name_from_event(&e.name_attr, id);
        let status = map_status("created", None, None);
        proof {
            lemma_created_is_stopped();
        }
        let mut snap = ContainerSnapshot::default();
        snap.id = String::from_str(id);
        snap.name = name;
        snap.status = status;
        EventReaction::Added(snap)
    } else if str_eq(action, "start") {
        status_change(id, Status::Running, StatsTask::SpawnIfAbsent, true)
    } else if str_eq(action, "unpause") {
        status_change(id, Status::Running, StatsTask::SpawnIfAbsent, false)
    } else if str_eq(action, "pause") {
        status_change(id, Status::Paused, StatsTask::Keep, false)
    } else if str_eq(action, "restart") {
        status_change(id, Status::Restarting, StatsTask::Keep, false)
    } else if str_eq(action, "die") {
        let exit_code = match &e.exit_code_attr {
            Some(s) => parse_i64(s.as_str()),
            None => None,
        };
        let status = map_status("exited", None, exit_code);
        status_change(id, status, StatsTask::Abort, false)
    } else if str_eq(action, "oom") {
        let status = map_status("exited", Some(true), Some(137));
        proof {
            lemma_exited_never_running(Some(true), Some(137));
        }
        status_change(id, status, StatsTask::Abort, false)
    } else if str_eq(action, "destroy") {
        EventReaction::Removed(String::from_str(id))
    } else {
        EventReaction::Ignore
    }
}

/// What the startup seed does with one listed container.
#[derive(Debug, Clone, Copy, PartialEq, Eq, Structural)]
pub enum SeedPlan {
    /// No id: skip the entry.
    Skip,
    /// Announce it (and fire a seed inspect); start its stats stream when
    /// it is running.
    Add { spawn_stats: bool },
}

/// Plan the seed step for one listed container: entries without an id are
/// skipped; the others are announced, with a stats stream when running.
pub fn seed_plan(snap: &ContainerSnapshot) -> (p: SeedPlan)
    ensures
        p == (if snap.id@.len() == 0 {
            SeedPlan::Skip
        } else {
            SeedPlan::Add { spawn_stats: snap.status == Status::Running }
        }),
{
    if snap.id.as_str().unicode_len() == 0 {
        SeedPlan::Skip
    } else {
        SeedPlan::Add { spawn_stats: snap.status == Status::Running }
    }
}

/// Every event that leaves a container not running stops its stats
/// stream; every event that makes one running keeps a stream alive.
pub proof fn lemma_stats_follow_status(e: ContainerEvent, r: EventReaction)
    requires
        event_reaction_ok(e, r),
    ensures
        r matches EventReaction::StatusChanged { status, stats, .. } ==> (status == Status::Running
            <==> stats == StatsTask::SpawnIfAbsent),
{
    lemma_exited_never_running(None, event_exit_code(e));
}

proof fn lemma_created_is_stopped()
    ensures
        spec_map_status("created"@, None, None) == Status::Stopped,
{
    reveal_strlit("created");
    reveal_strlit("running");
    reveal_strlit("paused");
    reveal_strlit("restarting");
    reveal_strlit("dead");
    reveal_strlit("exited");
    assert("created"@[0] != "running"@[0]);
    assert("created"@.len() != "paused"@.len());
    assert("created"@.len() != "restarting"@.len());
    assert("created"@.len() != "dead"@.len());
    assert("created"@.len() != "exited"@.len());
}

proof fn lemma_exited_never_running(oom: Option<bool>, code: Option<i64>)
    ensures
        spec_map_status("exited"@, oom, code) == Status::Stopped || spec_map_status("exited"@, oom, code)
            == Status::Crashed,
        oom == Some(true) ==> spec_map_status("exited"@, oom, code) == Status::Crashed,
{
    reveal_strlit("running");
    reveal_strlit("paused");
    reveal_strlit("restarting");
    reveal_strlit("dead");
    reveal_strlit("exited");
    assert("exited"@.len() != "running"@.len());
    assert("exited"@[0] != "paused"@[0]);
    assert("exited"@.len() != "restarting"@.len());
    assert("exited"@.len() != "dead"@.len());
}

} // verus!
