//! The state that the API server answers from.

use crate::collector::CollectionError;
use crate::snapshot::SystemSnapshot;
use crate::time::{Instant, NANOS_PER_SECOND};
use vstd::prelude::*;

verus! {

/// The seconds from which on a snapshot is too old.
pub const MAX_SNAPSHOT_AGE: u64 = 3;

/// The name under which the program reports its health.
pub const PROGRAM_NAME: &'static str = "Background_System_Monitor";

/// The status of an answer.
#[derive(Clone, Copy, Debug, PartialEq, Eq, Structural)]
pub enum Status {
    Success,
    ServiceUnavailable,
}

impl Status {
    /// The HTTP status code.
    pub fn code(self) -> (code: u16)
        ensures
            code == match self {
                Status::Success => 200u16,
                Status::ServiceUnavailable => 503u16,
            },
    {
        match self {
            Status::Success => 200,
            Status::ServiceUnavailable => 503,
        }
    }
}

/// Stable error response returned when the collector cannot provide a valid
/// snapshot.
#[derive(Clone, Copy, Debug)]
pub struct SystemErrorResponse {
    pub error: &'static str,
    pub message: &'static str,
    pub last_updated_at: Option<u64>,
}

/// The answer about the health of the program.
#[derive(Clone, Copy, Debug)]
pub struct HealthResponse {
    pub name: &'static str,
    pub status: &'static str,
}

/// The latest snapshot and how the collection went.
#[derive(Debug)]
pub struct MonitorState {
    snapshot: Option<SystemSnapshot>,
    last_success_at: Option<Instant>,
    collection_failed: bool,
}

impl MonitorState {
    /// A snapshot comes with the time of its collection, and a collection that
    /// did not fail has left one.
    #[verifier::type_invariant]
    spec fn well_formed(self) -> bool {
        &&& self.snapshot is Some <==> self.last_success_at is Some
        &&& !self.collection_failed ==> self.snapshot is Some
    }

    /// The snapshot of the last collection that succeeded.
    pub closed spec fn latest(self) -> Option<SystemSnapshot> {
        self.snapshot
    }

    /// When the last collection succeeded.
    pub closed spec fn collected_at(self) -> Option<Instant> {
        self.last_success_at
    }

    /// Whether the last collection failed.
    pub closed spec fn failed(self) -> bool {
        self.collection_failed
    }

    /// Whether the last collection succeeded and its snapshot is not too old.
    pub open spec fn healthy(self, now: Instant) -> bool {
        &&& !self.failed()
        &&& self.latest() is Some
        &&& self.collected_at() matches Some(at) && now.nanos_since(at) < MAX_SNAPSHOT_AGE
            * NANOS_PER_SECOND
    }

    /// The time stamp of the latest snapshot.
    pub open spec fn updated_at(self) -> Option<u64> {
        match self.latest() {
            Some(snapshot) => Some(snapshot.timestamp),
            None => None,
        }
    }

    /// Whether `self` is the state after a collection that succeeded with the
    /// snapshot.
    pub open spec fn holds(self, snapshot: SystemSnapshot, at: Instant) -> bool {
        &&& self.latest() == Some(snapshot)
        &&& self.collected_at() == Some(at)
        &&& !self.failed()
    }

    /// Whether `self` is the state after a first collection with the result.
    pub open spec fn starts(
        self,
        result: Result<SystemSnapshot, CollectionError>,
        now: Instant,
    ) -> bool {
        match result {
            Ok(snapshot) => self.holds(snapshot, now),
            Err(_) => {
                &&& self.latest() is None
                &&& self.collected_at() is None
                &&& self.failed()
            },
        }
    }

    /// Whether `after` is the state after a collection with the result, and
    /// `newly_failed` tells whether it is the failure that ends a healthy time.
    pub open spec fn publishes(
        self,
        after: MonitorState,
        result: Result<SystemSnapshot, CollectionError>,
        now: Instant,
        newly_failed: bool,
    ) -> bool {
        match result {
            Ok(snapshot) => after.holds(snapshot, now) && !newly_failed,
            Err(_) => {
                &&& after.latest() == self.latest()
                &&& after.collected_at() == self.collected_at()
                &&& after.failed()
                &&& newly_failed == self.healthy(now)
            },
        }
    }

    /// The state after the first collection.
    pub fn from_result(result: Result<SystemSnapshot, CollectionError>, now: Instant) -> (state:
        MonitorState)
        ensures
            state.starts(result, now),
    {
        let mut state = MonitorState {
            snapshot: None,
            last_success_at: None,
            collection_failed: true,
        };
        if let Ok(snapshot) = result {
            state.set_success(snapshot, now);
        }
        state
    }

    /// Takes over the snapshot of a collection that succeeded.
    pub fn set_success(&mut self, snapshot: SystemSnapshot, now: Instant)
        ensures
            final(self).holds(snapshot, now),
    {
        *self = MonitorState {
            snapshot: Some(snapshot),
            last_success_at: Some(now),
            collection_failed: false,
        };
    }

    /// Notes that a collection failed. The latest snapshot stays.
    pub fn set_failure(&mut self)
        ensures
            final(self).latest() == old(self).latest(),
            final(self).collected_at() == old(self).collected_at(),
            final(self).failed(),
    {
        proof {
            use_type_invariant(&*self);
        }
        self.collection_failed = true;
    }

    /// Takes over the result of a collection; tells whether it is the failure
    /// that ends a healthy time.
    pub fn publish(
        &mut self,
        result: Result<SystemSnapshot, CollectionError>,
        now: Instant,
    ) -> (newly_failed: bool)
        ensures
            old(self).publishes(*final(self), result, now, newly_failed),
    {
        let was_healthy: bool = self.is_healthy(now);
        match result {
            Ok(snapshot) => {
                self.set_success(snapshot, now);
                false
            },
            Err(_) => {
                self.set_failure();
                was_healthy
            },
        }
    }

    /// Whether the last collection succeeded and its snapshot is not too old.
    pub fn is_healthy(&self, now: Instant) -> (healthy: bool)
        ensures
            healthy == self.healthy(now),
    {
        if self.collection_failed || self.snapshot.is_none() {
            return false;
        }
        match self.last_success_at {
            Some(at) => !now.duration_since(at).reaches_secs(MAX_SNAPSHOT_AGE),
            None => false,
        }
    }

    /// The time stamp of the latest snapshot.
    pub fn last_updated_at(&self) -> (timestamp: Option<u64>)
        ensures
            timestamp == self.updated_at(),
    {
        match &self.snapshot {
            Some(snapshot) => Some(snapshot.timestamp),
            None => None,
        }
    }

    /// A copy of the latest snapshot while the state is healthy, else its time
    /// stamp.
    pub fn snapshot(&self, now: Instant) -> (result: Result<SystemSnapshot, Option<u64>>)
        ensures
            match result {
                Ok(snapshot) => self.healthy(now) && snapshot.same(self.latest()->0),
                Err(timestamp) => !self.healthy(now) && timestamp == self.updated_at(),
            },
    {
        if self.is_healthy(now) {
            if let Some(snapshot) = &self.snapshot {
                return Ok(snapshot.clone());
            }
        }
        Err(self.last_updated_at())
    }
}

/// What `GET /api/system` is answered: a copy of the latest snapshot while the
/// state is healthy, else a fixed error with the time stamp of the latest
/// snapshot.
pub open spec fn answers_snapshot(
    state: MonitorState,
    now: Instant,
    answer: Result<SystemSnapshot, (Status, SystemErrorResponse)>,
) -> bool {
    match answer {
        Ok(snapshot) => state.healthy(now) && snapshot.same(state.latest()->0),
        Err((status, response)) => {
            &&& !state.healthy(now)
            &&& status == Status::ServiceUnavailable
            &&& response.error@ == "system_metrics_unavailable"@
            &&& response.message@ == "System metrics are temporarily unavailable"@
            &&& response.last_updated_at == state.updated_at()
        },
    }
}

/// What `GET /health` is answered: the program's name and whether the state is
/// healthy.
pub open spec fn answers_health(
    state: MonitorState,
    now: Instant,
    answer: (Status, HealthResponse),
) -> bool {
    let (status, response) = answer;
    &&& response.name@ == PROGRAM_NAME@
    &&& if state.healthy(now) {
        status == Status::Success && response.status@ == "OK"@
    } else {
        status == Status::ServiceUnavailable && response.status@ == "UNAVAILABLE"@
    }
}

/// The answer to `GET /api/system`.
pub fn get_system_snapshot(state: &MonitorState, now: Instant) -> (answer: Result<
    SystemSnapshot,
    (Status, SystemErrorResponse),
>)
    ensures
        answers_snapshot(*state, now, answer),
{
    match state.snapshot(now) {
        Ok(snapshot) => Ok(snapshot),
        Err(last_updated_at) => Err(
            (
                Status::ServiceUnavailable,
                SystemErrorResponse {
                    error: "system_metrics_unavailable",
                    message: "System metrics are temporarily unavailable",
                    last_updated_at,
                },
            ),
        ),
    }
}

/// The answer to `GET /health`.
pub fn health(state: &MonitorState, now: Instant) -> (answer: (Status, HealthResponse))
    ensures
        answers_health(*state, now, answer),
{
    let (code, status) = if state.is_healthy(now) {
        (Status::Success, "OK")
    } else {
        (Status::ServiceUnavailable, "UNAVAILABLE")
    };
    (code, HealthResponse { name: PROGRAM_NAME, status })
}

/// The answer to `POST /control/shutdown`, once the shutdown is requested.
pub fn control_shutdown() -> (answer: (Status, &'static str))
    ensures
        answer.0 == Status::Success,
        answer.1@ == "OK"@,
{
    (Status::Success, "OK")
}

/// A collection that succeeded keeps the state healthy for less than three
/// seconds, and no longer.
pub proof fn lemma_healthy_until_stale(
    state: MonitorState,
    snapshot: SystemSnapshot,
    at: Instant,
    now: Instant,
)
    requires
        state.holds(snapshot, at),
    ensures
        state.healthy(now) <==> now.nanos() < at.nanos() + 3 * NANOS_PER_SECOND,
{
}

/// What a collection gave is served until it is too old.
pub proof fn lemma_snapshot_is_served(
    state: MonitorState,
    snapshot: SystemSnapshot,
    at: Instant,
    now: Instant,
    answer: Result<SystemSnapshot, (Status, SystemErrorResponse)>,
)
    requires
        state.holds(snapshot, at),
        answers_snapshot(state, now, answer),
    ensures
        now.nanos() < at.nanos() + 3 * NANOS_PER_SECOND ==> (answer matches Ok(served)
            && served.same(snapshot)),
        now.nanos() >= at.nanos() + 3 * NANOS_PER_SECOND ==> (answer matches Err(
            (_, response),
        ) && response.last_updated_at == Some(snapshot.timestamp)),
{
}

/// Both answers at one time agree on whether the metrics are available.
pub proof fn lemma_answers_agree(
    state: MonitorState,
    now: Instant,
    system: Result<SystemSnapshot, (Status, SystemErrorResponse)>,
    health: (Status, HealthResponse),
)
    requires
        answers_snapshot(state, now, system),
        answers_health(state, now, health),
    ensures
        system is Ok <==> health.0 == Status::Success,
        system matches Err((status, _)) ==> status == health.0,
{
}

/// A state that is not healthy does not become so by waiting.
pub proof fn lemma_unhealthy_stays(state: MonitorState, now: Instant, later: Instant)
    requires
        !state.healthy(now),
        now.nanos() <= later.nanos(),
    ensures
        !state.healthy(later),
{
}

/// After a collection that failed, and until one succeeds, both answers say so
/// at any time; the time stamp is that of the last snapshot.
pub proof fn lemma_failure_is_answered(
    state: MonitorState,
    now: Instant,
    system: Result<SystemSnapshot, (Status, SystemErrorResponse)>,
    health: (Status, HealthResponse),
)
    requires
        state.failed(),
        answers_snapshot(state, now, system),
        answers_health(state, now, health),
    ensures
        system matches Err((status, response)) && status == Status::ServiceUnavailable
            && response.error@ == "system_metrics_unavailable"@ && response.message@
            == "System metrics are temporarily unavailable"@ && response.last_updated_at
            == state.updated_at(),
        health.0 == Status::ServiceUnavailable,
        health.1.status@ == "UNAVAILABLE"@,
{
}

} // verus!
