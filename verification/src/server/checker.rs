//! Health checks: which answers count as healthy and what follows from them.
use crate::metrics;
use crate::metrics::Metrics;
use crate::server::status::{AppState, ServerInfo};
use crate::time::Duration;
use vstd::prelude::*;

verus! {

/// The lowest status code of an answer that counts as healthy.
pub const FIRST_HEALTHY: u16 = 200;

/// The lowest status code above those.
pub const FIRST_UNHEALTHY: u16 = 500;

/// A check of one backend.
#[derive(Clone, Debug)]
pub struct HealthCheck {
    pub url: String,
    pub interval: Duration,
    pub timeout: Duration,
    /// Whether the backend counts as up.
    pub alive: bool,
    pub listener_addr: String,
    pub backend_addr: String,
    /// The place of the server among the servers.
    pub server: usize,
    /// The place of the backend among the server's backends.
    pub backend: usize,
}

/// A check that runs, with what the last reply said. Until there is one the
/// backend is taken to be up.
#[derive(Clone, Debug)]
pub struct RunningCheck {
    pub check: HealthCheck,
    pub was_alive: bool,
}

/// The checks that are run.
pub struct HealthChecker {
    pub checks: Vec<HealthCheck>,
}

/// What a request to a backend came back with.
#[derive(Clone, Debug)]
pub enum Reply {
    /// An answer with this status code, and the words for the code.
    Status(u16, String),
    /// No answer, and why.
    Failed(String),
}

/// An answer counts as healthy unless it reports an error of the server.
pub open spec fn healthy(reply: Reply) -> bool {
    reply matches Reply::Status(code, _) && FIRST_HEALTHY <= code < FIRST_UNHEALTHY
}

/// What is said of a reply that is not healthy.
pub open spec fn complaint(reply: Reply) -> Seq<char> {
    match reply {
        Reply::Status(_, words) => "HTTP "@ + words@,
        Reply::Failed(e) => e@,
    }
}

/// What a change of health is announced as.
#[derive(Clone, Copy, PartialEq, Eq, Structural, Debug)]
pub enum Change {
    Unchanged,
    NowHealthy,
    NowUnhealthy,
}

/// The gauge that shows whether a backend is up.
pub open spec fn gauge_set(before: Metrics, after: Metrics, check: HealthCheck, value: i64) -> bool {
    &&& metrics::gauge_desc(after.balancer_backend_alive) == metrics::gauge_desc(
        before.balancer_backend_alive,
    )
    &&& metrics::levels(after.balancer_backend_alive) == metrics::levels(
        before.balancer_backend_alive,
    ).insert(metrics::label_hash(seq![check.listener_addr@, check.backend_addr@]), value)
}

impl HealthChecker {
    pub fn new(checks: Vec<HealthCheck>) -> (c: HealthChecker)
        ensures
            c.checks@ == checks@,
    {
        HealthChecker { checks }
    }

    /// What a reply says of the backend.
    pub fn perform_check(reply: &Reply) -> (r: Result<(), String>)
        ensures
            r is Ok <==> healthy(*reply),
            r matches Err(m) ==> m@ == complaint(*reply),
    {
        match reply {
            Reply::Status(code, words) => {
                if FIRST_HEALTHY <= *code && *code < FIRST_UNHEALTHY {
                    Ok(())
                } else {
                    Err("HTTP ".to_string().concat(words.as_str()))
                }
            },
            Reply::Failed(e) => Err(e.clone()),
        }
    }

    /// Starts a check. Before the first reply the backend is shown as up.
    pub fn start_check(check: HealthCheck, metrics: &mut Metrics) -> (running: RunningCheck)
        requires
            old(metrics).wf(),
        ensures
            final(metrics).wf(),
            running == (RunningCheck { check, was_alive: true }),
            gauge_set(*old(metrics), *final(metrics), check, 1),
            *final(metrics) == (Metrics {
                balancer_backend_alive: final(metrics).balancer_backend_alive,
                ..*old(metrics)
            }),
    {
        let labels: [&str; 2] = [check.listener_addr.as_str(), check.backend_addr.as_str()];
        assert(metrics::texts(labels@) =~= seq![check.listener_addr@, check.backend_addr@]);
        metrics.balancer_backend_alive.set(&labels, 1);
        RunningCheck { check, was_alive: true }
    }

    /// Takes in a reply: it is counted, the backend is up or down from now on
    /// and is shown so, and a change since the last reply is announced.
    pub fn run_check(running: &mut RunningCheck, metrics: &mut Metrics, reply: &Reply) -> (change:
        Change)
        requires
            old(metrics).wf(),
        ensures
            final(metrics).wf(),
            final(running).check == (HealthCheck { alive: healthy(*reply), ..old(running).check }),
            final(running).was_alive == healthy(*reply),
            change == if healthy(*reply) == old(running).was_alive {
                Change::Unchanged
            } else if healthy(*reply) {
                Change::NowHealthy
            } else {
                Change::NowUnhealthy
            },
            ({
                let check = old(running).check;
                let labels = seq![check.listener_addr@, check.backend_addr@];
                &&& metrics::bumped(
                    old(metrics).health_check_total,
                    final(metrics).health_check_total,
                    labels,
                    1,
                )
                &&& if healthy(*reply) {
                    final(metrics).health_check_failed == old(metrics).health_check_failed
                } else {
                    metrics::bumped(
                        old(metrics).health_check_failed,
                        final(metrics).health_check_failed,
                        labels,
                        1,
                    )
                }
            }),
            gauge_set(
                *old(metrics),
                *final(metrics),
                old(running).check,
                if healthy(*reply) {
                    1
                } else {
                    0
                },
            ),
            *final(metrics) == (Metrics {
                health_check_total: final(metrics).health_check_total,
                health_check_failed: final(metrics).health_check_failed,
                balancer_backend_alive: final(metrics).balancer_backend_alive,
                ..*old(metrics)
            }),
    {
        let is_alive = Self::perform_check(reply).is_ok();
        let check = &running.check;
        let labels: [&str; 2] = [check.listener_addr.as_str(), check.backend_addr.as_str()];
        assert(metrics::texts(labels@) =~= seq![check.listener_addr@, check.backend_addr@]);
        metrics.health_check_total.inc(&labels);
        if !is_alive {
            metrics.health_check_failed.inc(&labels);
        }
        metrics.balancer_backend_alive.set(
            &labels,
            if is_alive {
                1
            } else {
                0
            },
        );
        let change = if is_alive == running.was_alive {
            Change::Unchanged
        } else if is_alive {
            Change::NowHealthy
        } else {
            Change::NowUnhealthy
        };
        running.was_alive = is_alive;
        running.check.alive = is_alive;
        change
    }
}

/// `after` is the server with the checked backend up or down as the check
/// says, and as it was where there is no such backend.
pub open spec fn applied(before: ServerInfo, after: ServerInfo, check: HealthCheck) -> bool {
    match before.balancer {
        Some(b) => if check.backend < b.pool().len() {
            &&& after.balancer matches Some(c) && b.marked(c, check.backend as int, check.alive)
            &&& after.mirror == before.mirror
        } else {
            after == before
        },
        None => after == before,
    }
}

/// Lets what a check came to reach the pool that packets are spread over.
/// Nothing changes but the backend that the check is of.
pub fn apply_check(state: &mut AppState, check: &HealthCheck)
    requires
        old(state).wf(),
    ensures
        final(state).wf(),
        final(state).servers@.len() == old(state).servers@.len(),
        forall|j: int|
            0 <= j < old(state).servers@.len() && j != check.server ==> final(state).servers@[j]
                == #[trigger] old(state).servers@[j],
        check.server < old(state).servers@.len() ==> applied(
            old(state).servers@[check.server as int],
            final(state).servers@[check.server as int],
            *check,
        ),
{
    if check.server >= state.servers.len() {
        return;
    }
    match &mut state.servers[check.server].balancer {
        Some(balancer) => {
            if check.backend < balancer.backends().len() {
                balancer.set_alive(check.backend, check.alive);
            }
        },
        None => {},
    }
}

/// The codes from 200 to 499 count as healthy, those from 500 to 599 and a
/// request without an answer do not.
pub proof fn law_server_errors_are_unhealthy(code: u16, words: String)
    ensures
        200 <= code <= 499 ==> healthy(Reply::Status(code, words)),
        500 <= code <= 599 ==> !healthy(Reply::Status(code, words)),
        !healthy(Reply::Failed(words)),
{
}

/// A backend is healthy exactly where it answers, and with a code from 200 to
/// 499, whatever words come with the code.
pub proof fn law_healthy_codes(reply: Reply)
    ensures
        healthy(reply) <==> (reply matches Reply::Status(code, _) && 200 <= code && code <= 499),
{
}

/// A complaint names the words of the answer, or says why there was none.
pub proof fn law_complaints_name_their_cause(code: u16, words: String)
    ensures
        complaint(Reply::Status(code, words)) == "HTTP "@ + words@,
        complaint(Reply::Failed(words)) == words@,
{
}

/// Setting the gauge of a check shows the value under the listener and the
/// backend of the check, and changes nothing that is shown under labels that
/// hash otherwise.
pub proof fn law_gauge_shows_the_check(
    before: Metrics,
    after: Metrics,
    check: HealthCheck,
    value: i64,
    listener: Seq<char>,
    backend: Seq<char>,
)
    requires
        gauge_set(before, after, check, value),
    ensures
        metrics::levels(after.balancer_backend_alive)[metrics::label_hash(
            seq![check.listener_addr@, check.backend_addr@],
        )] == value,
        metrics::label_hash(seq![listener, backend]) != metrics::label_hash(
            seq![check.listener_addr@, check.backend_addr@],
        ) ==> metrics::levels(after.balancer_backend_alive)[metrics::label_hash(
            seq![listener, backend],
        )] == metrics::levels(before.balancer_backend_alive)[metrics::label_hash(
            seq![listener, backend],
        )],
{
}

/// A check reaches the backend that it is of and no other: that one is up or
/// down as the check says, and the others stay, as do the mirrors and the
/// sessions.
pub proof fn law_check_reaches_its_backend(
    before: ServerInfo,
    after: ServerInfo,
    check: HealthCheck,
    j: int,
)
    requires
        applied(before, after, check),
    ensures
        after.mirror == before.mirror,
        after.balancer is Some <==> before.balancer is Some,
        before.balancer is Some ==> {
            let was = before.balancer->0;
            let is = after.balancer->0;
            &&& is.pool().len() == was.pool().len()
            &&& check.backend < was.pool().len() ==> is.pool()[check.backend as int].alive
                == check.alive
            &&& 0 <= j < was.pool().len() && j != check.backend ==> is.pool()[j] == was.pool()[j]
            &&& is.manager().sessions() == was.manager().sessions()
            &&& check.backend >= was.pool().len() ==> after == before
        },
{
}

} // verus!
