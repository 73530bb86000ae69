//! Laws of the monitor's state and its answers.

use crate::collector::CollectionError;
use crate::snapshot::SystemSnapshot;
use crate::system_monitor;
use crate::system_monitor::{HealthResponse, MonitorState, Status, SystemErrorResponse};
use crate::time::Instant;
use vstd::prelude::*;

verus! {

/// Two snapshots that are the same agree in every metric.
pub proof fn law_copy(copy: SystemSnapshot, snapshot: SystemSnapshot)
    requires
        copy.same(snapshot),
    ensures
        copy.timestamp == snapshot.timestamp,
        copy.system == snapshot.system,
        copy.cpu.usage_percent == snapshot.cpu.usage_percent,
        copy.cpu.logical_cores == snapshot.cpu.logical_cores,
        copy.cpu.physical_cores == snapshot.cpu.physical_cores,
        copy.cpu.package_temperature_celsius == snapshot.cpu.package_temperature_celsius,
        copy.cpu.per_core@ == snapshot.cpu.per_core@,
        copy.memory == snapshot.memory,
        copy.swap == snapshot.swap,
        copy.uptime == snapshot.uptime,
        copy.disks@ == snapshot.disks@,
        copy.networks@ == snapshot.networks@,
        copy.gpus@ == snapshot.gpus@,
{
}

/// What a collection gave is answered for less than three seconds after it was
/// published, and both answers are then good. After that the answers say that
/// there is none, with its time stamp.
pub proof fn law_published(
    before: MonitorState,
    after: MonitorState,
    snapshot: SystemSnapshot,
    at: Instant,
    newly_failed: bool,
    now: Instant,
    system: Result<SystemSnapshot, (Status, SystemErrorResponse)>,
    health: (Status, HealthResponse),
)
    requires
        before.publishes(after, Ok(snapshot), at, newly_failed),
        system_monitor::answers_snapshot(after, now, system),
        system_monitor::answers_health(after, now, health),
    ensures
        !newly_failed,
        now.nanos() < at.nanos() + 3_000_000_000 ==> {
            &&& system matches Ok(served) && served.same(snapshot)
            &&& health.0 == Status::Success
            &&& health.1.status@ == "OK"@
        },
        now.nanos() >= at.nanos() + 3_000_000_000 ==> {
            &&& system matches Err((status, response)) && status == Status::ServiceUnavailable
                && response.last_updated_at == Some(snapshot.timestamp)
            &&& health.0 == Status::ServiceUnavailable
            &&& health.1.status@ == "UNAVAILABLE"@
        },
        health.1.name@ == "Background_System_Monitor"@,
{
}

/// After a failure the answers say that there are no metrics, at any time, with
/// the time stamp of the snapshot before it. It is news exactly where the
/// snapshot would have been answered without it.
pub proof fn law_failure_published(
    before: MonitorState,
    after: MonitorState,
    error: CollectionError,
    at: Instant,
    newly_failed: bool,
    now: Instant,
    without: Result<SystemSnapshot, (Status, SystemErrorResponse)>,
    system: Result<SystemSnapshot, (Status, SystemErrorResponse)>,
    health: (Status, HealthResponse),
)
    requires
        before.publishes(after, Err(error), at, newly_failed),
        system_monitor::answers_snapshot(before, at, without),
        system_monitor::answers_snapshot(after, now, system),
        system_monitor::answers_health(after, now, health),
    ensures
        newly_failed <==> without is Ok,
        system matches Err((status, response)) && status == Status::ServiceUnavailable
            && response.error@ == "system_metrics_unavailable"@ && response.message@
            == "System metrics are temporarily unavailable"@ && response.last_updated_at
            == match before.latest() {
            Some(snapshot) => Some(snapshot.timestamp),
            None => None,
        },
        health.0 == Status::ServiceUnavailable,
        health.1.status@ == "UNAVAILABLE"@,
{
}

/// A failure does not undo a success that follows it, and two failures in a row
/// are news once.
pub proof fn law_failures_in_a_row(
    before: MonitorState,
    between: MonitorState,
    after: MonitorState,
    first: CollectionError,
    second: CollectionError,
    at: Instant,
    later: Instant,
    news: bool,
    more_news: bool,
)
    requires
        before.publishes(between, Err(first), at, news),
        between.publishes(after, Err(second), later, more_news),
    ensures
        !more_news,
        after.updated_at() == before.updated_at(),
        after.latest() == before.latest(),
{
}

/// The first collection is answered as any other: its snapshot while it is
/// young, and where it failed no snapshot and no time stamp.
pub proof fn law_started(
    state: MonitorState,
    result: Result<SystemSnapshot, CollectionError>,
    at: Instant,
    now: Instant,
    system: Result<SystemSnapshot, (Status, SystemErrorResponse)>,
)
    requires
        state.starts(result, at),
        system_monitor::answers_snapshot(state, now, system),
    ensures
        result matches Ok(snapshot) ==> {
            &&& now.nanos() < at.nanos() + 3_000_000_000 ==> (system matches Ok(served)
                && served.same(snapshot))
            &&& now.nanos() >= at.nanos() + 3_000_000_000 ==> (system matches Err((_, response))
                && response.last_updated_at == Some(snapshot.timestamp))
        },
        result is Err ==> (system matches Err((_, response)) && response.last_updated_at is None),
{
}

} // verus!
