//! What the monitor answers to requests.

use crate::clock;
use crate::clock::Timestamp;
use crate::dependency;
use crate::dependency::DependencyGraph;
use crate::history;
use crate::models;
use crate::models::{
    DependencyNode, HeartbeatRequest, ReportSummary, RootCauseResult, ServiceConfig,
    ServiceStateView, ServiceStatus, StateHistoryEntry,
};
use crate::state::AppState;
use crate::text;
use vstd::prelude::*;

verus! {

/// The request was served.
pub const OK: u16 = 200;

/// The request will be served.
pub const ACCEPTED: u16 = 202;

/// What the request is about is not there.
pub const NOT_FOUND: u16 = 404;

/// The request cannot be served now.
pub const SERVICE_UNAVAILABLE: u16 = 503;

/// Why a request was not served.
#[derive(Debug)]
pub struct Problem {
    pub problem_type: String,
    pub title: String,
    pub status: u16,
    pub detail: String,
}

impl Problem {
    /// Whether the problem has no type of its own, and this status, title and detail.
    pub open spec fn says(self, status: u16, title: Seq<char>, detail: Seq<char>) -> bool {
        &&& self.problem_type@ == "about:blank"@
        &&& self.status == status
        &&& self.title@ == title
        &&& self.detail@ == detail
    }

    /// Whether the problem is that a service is not there.
    pub open spec fn no_service(self, name: Seq<char>) -> bool {
        self.says(NOT_FOUND, "Not Found"@, "服务 '"@ + name + "' 不存在"@)
    }
}

/// An answer to a request that was served, with its status code.
#[derive(Debug)]
pub struct Reply<T> {
    pub status: u16,
    pub body: T,
}

/// A service in a list of all of them.
#[derive(Debug)]
pub struct ServiceListing {
    pub name: String,
    pub status: ServiceStatus,
    pub last_check: Option<Timestamp>,
    pub last_success: Option<Timestamp>,
}

impl ServiceListing {
    /// Whether this is how a service with a state is listed.
    pub open spec fn shows(self, state: ServiceStateView) -> bool {
        &&& self.name@ == state.name
        &&& self.status == state.status
        &&& self.last_check == state.last_check
        &&& self.last_success == state.last_success
    }
}

/// All that is told of a service.
#[derive(Debug)]
pub struct ServiceDetails {
    pub name: String,
    pub status: ServiceStatus,
    pub last_check: Option<Timestamp>,
    pub last_success: Option<Timestamp>,
    pub last_error: Option<String>,
    pub consecutive_successes: u32,
    pub consecutive_failures: u32,
    pub status_since: Timestamp,
    pub config: Option<ServiceConfig>,
    pub history: Vec<StateHistoryEntry>,
}

impl ServiceDetails {
    /// Whether this is what is told of a service with a state.
    pub open spec fn shows(self, state: ServiceStateView) -> bool {
        &&& self.name@ == state.name
        &&& self.status == state.status
        &&& self.last_check == state.last_check
        &&& self.last_success == state.last_success
        &&& models::optional_text(self.last_error) == state.last_error
        &&& self.consecutive_successes == state.consecutive_successes
        &&& self.consecutive_failures == state.consecutive_failures
        &&& self.status_since == state.status_since
    }
}

/// The answer to a sign of life.
#[derive(Debug)]
pub struct HeartbeatReply {
    pub message: String,
    pub name: String,
    pub status_changed: bool,
}

impl HeartbeatReply {
    /// Whether this is the answer to a sign of life of a service, whose status changed so.
    pub open spec fn confirms(self, name: Seq<char>, change: Option<ServiceStatus>) -> bool {
        &&& self.name@ == name
        &&& self.status_changed == change is Some
        &&& self.message@ == match change {
            Some(status) => "心跳已接收，状态更新为 "@ + status.text(),
            None => "心跳已接收"@,
        }
    }
}

/// What depends on what, and where trouble starts.
#[derive(Debug)]
pub struct DependencyReport {
    pub trees: Vec<DependencyNode>,
    pub root_causes: Vec<RootCauseResult>,
}

/// How the monitor itself is doing.
#[derive(Debug)]
pub struct HealthReply {
    pub status: String,
    pub service: String,
}

/// The problem with a status, a title and a detail.
pub fn problem(status: u16, title: &str, detail: &str) -> (problem: Problem)
    ensures
        problem.says(status, title@, detail@),
{
    Problem {
        problem_type: "about:blank".to_owned(),
        title: title.to_owned(),
        status,
        detail: detail.to_owned(),
    }
}

fn no_service(name: &str) -> (problem: Problem)
    ensures
        problem.no_service(name@),
{
    self::problem(
        NOT_FOUND,
        "Not Found",
        text::enclose("服务 '", name, "' 不存在").as_str(),
    )
}

/// Lists all services, in some order.
pub fn list_services(state: &AppState) -> (reply: Reply<Vec<ServiceListing>>)
    ensures
        reply.status == OK,
        exists|order: Seq<Seq<char>>|
            {
                &&& order.no_duplicates()
                &&& #[trigger] order.to_set() == state@.services.dom()
                &&& reply.body@.len() == order.len()
                &&& forall|i: int|
                    0 <= i < order.len() ==> (#[trigger] reply.body@[i]).shows(
                        state@.services[order[i]],
                    )
            },
{
    let count: usize = state.services.len();
    let ghost order = state.services.names();
    let mut listings: Vec<ServiceListing> = Vec::new();
    for i in 0..count
        invariant
            order == state.services.names(),
            count == order.len(),
            listings@.len() == i,
            forall|j: int|
                0 <= j < i ==> (#[trigger] listings@[j]).shows(state@.services[order[j]]),
    {
        let service = state.services.value_at(i);
        listings.push(
            ServiceListing {
                name: service.name.clone(),
                status: service.status,
                last_check: service.last_check,
                last_success: service.last_success,
            },
        );
    }
    assert(state@.services.dom() =~= state.services@.dom());
    assert(order.to_set() == state@.services.dom());
    Reply { status: OK, body: listings }
}

/// Tells all of a service.
pub fn get_service(state: &AppState, name: &str) -> (reply: Result<
    Reply<ServiceDetails>,
    Problem,
>)
    ensures
        match reply {
            Ok(reply) => {
                &&& state@.services.contains_key(name@)
                &&& reply.status == OK
                &&& reply.body.shows(state@.services[name@])
                &&& match reply.body.config {
                    Some(config) => {
                        &&& state@.configs.contains_key(name@)
                        &&& config@ == state@.configs[name@]
                    },
                    None => !state@.configs.contains_key(name@),
                }
                &&& reply.body.history@.map_values(|entry: StateHistoryEntry| entry@)
                    == state@.changes(name@)
                &&& reply.body.history@.len() <= history::HISTORY_CAPACITY
            },
            Err(problem) => {
                &&& !state@.services.contains_key(name@)
                &&& problem.no_service(name@)
            },
        },
{
    match state.services.get(name) {
        Some(service) => {
            let config = match state.configs.get(name) {
                Some(config) => Some(config.clone()),
                None => None,
            };
            let body = ServiceDetails {
                name: service.name.clone(),
                status: service.status,
                last_check: service.last_check,
                last_success: service.last_success,
                last_error: service.last_error.clone(),
                consecutive_successes: service.consecutive_successes,
                consecutive_failures: service.consecutive_failures,
                status_since: service.status_since,
                config,
                history: state.get_history(name),
            };
            Ok(Reply { status: OK, body })
        },
        None => Err(no_service(name)),
    }
}

/// Whether a service is there whose check can be triggered.
pub fn trigger_check(state: &AppState, name: &str) -> (found: Result<(), Problem>)
    ensures
        match found {
            Ok(()) => state@.services.contains_key(name@),
            Err(problem) => !state@.services.contains_key(name@) && problem.no_service(name@),
        },
{
    if state.services.contains_key(name) {
        Ok(())
    } else {
        Err(no_service(name))
    }
}

/// The answer to a request to check a service that is there: whether the check was queued.
pub fn trigger_reply(name: &str, queued: bool) -> (reply: Result<Reply<String>, Problem>)
    ensures
        match reply {
            Ok(reply) => {
                &&& queued
                &&& reply.status == ACCEPTED
                &&& reply.body@ == "已触发服务 '"@ + name@ + "' 的检查"@
            },
            Err(problem) => !queued && problem.says(
                SERVICE_UNAVAILABLE,
                "Service Unavailable"@,
                "检查任务通道已关闭"@,
            ),
        },
{
    if queued {
        Ok(Reply { status: ACCEPTED, body: text::enclose("已触发服务 '", name, "' 的检查") })
    } else {
        Err(self::problem(SERVICE_UNAVAILABLE, "Service Unavailable", "检查任务通道已关闭"))
    }
}

/// Tells the last status changes of a service, the newest first.
pub fn get_history(state: &AppState, name: &str) -> (reply: Result<
    Reply<Vec<StateHistoryEntry>>,
    Problem,
>)
    ensures
        match reply {
            Ok(reply) => {
                &&& state@.services.contains_key(name@)
                &&& reply.status == OK
                &&& reply.body@.map_values(|entry: StateHistoryEntry| entry@) == state@.changes(
                    name@,
                )
                &&& reply.body@.len() <= history::HISTORY_CAPACITY
            },
            Err(problem) => !state@.services.contains_key(name@) && problem.no_service(name@),
        },
{
    if state.services.contains_key(name) {
        Ok(Reply { status: OK, body: state.get_history(name) })
    } else {
        Err(no_service(name))
    }
}

/// Takes a sign of life at the current time.
pub fn heartbeat(state: &mut AppState, request: &HeartbeatRequest) -> (reply: Result<
    Reply<HeartbeatReply>,
    Problem,
>)
    requires
        old(state)@.countable(request.name@, true),
    ensures
        exists|now: Timestamp|
            now.shown() && final(state)@ == #[trigger] old(state)@.beaten(request.name@, now),
        match reply {
            Ok(reply) => {
                &&& old(state)@.services.contains_key(request.name@)
                &&& reply.status == OK
                &&& reply.body.confirms(
                    request.name@,
                    old(state)@.change(request.name@, true),
                )
            },
            Err(problem) => {
                &&& !old(state)@.services.contains_key(request.name@)
                &&& problem.says(
                    NOT_FOUND,
                    "Not Found"@,
                    "服务 '"@ + request.name@ + "' 未注册"@,
                )
            },
        },
{
    let now = clock::utc_now();
    heartbeat_at(state, request, now)
}

/// Takes a sign of life at `now`.
pub fn heartbeat_at(state: &mut AppState, request: &HeartbeatRequest, now: Timestamp) -> (reply:
    Result<Reply<HeartbeatReply>, Problem>)
    requires
        old(state)@.countable(request.name@, true),
    ensures
        final(state)@ == old(state)@.beaten(request.name@, now),
        match reply {
            Ok(reply) => {
                &&& old(state)@.services.contains_key(request.name@)
                &&& reply.status == OK
                &&& reply.body.confirms(
                    request.name@,
                    old(state)@.change(request.name@, true),
                )
            },
            Err(problem) => {
                &&& !old(state)@.services.contains_key(request.name@)
                &&& problem.says(
                    NOT_FOUND,
                    "Not Found"@,
                    "服务 '"@ + request.name@ + "' 未注册"@,
                )
            },
        },
{
    let name = request.name.as_str();
    if !state.services.contains_key(name) {
        return Err(
            self::problem(
                NOT_FOUND,
                "Not Found",
                text::enclose("服务 '", name, "' 未注册").as_str(),
            ),
        );
    }
    let change = state.record_heartbeat_at(name, now);
    let message = match change {
        Some(status) => text::enclose("心跳已接收，状态更新为 ", status.to_string().as_str(), ""),
        None => "心跳已接收".to_owned(),
    };
    proof {
        reveal_strlit("");
        assert(change matches Some(status) ==> message@ =~= "心跳已接收，状态更新为 "@ + status.text());
    }
    let body = HeartbeatReply {
        message,
        name: request.name.clone(),
        status_changed: change.is_some(),
    };
    Ok(Reply { status: OK, body })
}

/// Tells how many services have which status.
pub fn get_report(state: &AppState) -> (reply: Reply<ReportSummary>)
    ensures
        reply.status == OK,
        reply.body.total == state@.services.len(),
        reply.body.healthy == state@.count(ServiceStatus::Healthy),
        reply.body.degraded == state@.count(ServiceStatus::Degraded),
        reply.body.unhealthy == state@.count(ServiceStatus::Unhealthy),
        reply.body.unknown == state@.count(ServiceStatus::Unknown),
{
    Reply { status: OK, body: state.get_report_summary() }
}

/// Tells what depends on what, and where trouble starts.
pub fn get_dependencies(graph: &DependencyGraph) -> (reply: Reply<DependencyReport>)
    ensures
        reply.status == OK,
        graph@.nodes.dom().finite(),
        dependency::shows_trees(graph@, reply.body.trees@),
        dependency::shows_causes(graph@, reply.body.root_causes@),
{
    let body = DependencyReport {
        trees: graph.all_trees(),
        root_causes: graph.find_root_causes(),
    };
    Reply { status: OK, body }
}

/// Tells that the monitor is there.
pub fn health_check() -> (reply: Reply<HealthReply>)
    ensures
        reply.status == OK,
        reply.body.status@ == "healthy"@,
        reply.body.service@ == "healthcheck-service"@,
{
    let body = HealthReply {
        status: "healthy".to_owned(),
        service: "healthcheck-service".to_owned(),
    };
    Reply { status: OK, body }
}

/// The answer to a request for something that is not there.
pub fn not_found() -> (problem: Problem)
    ensures
        problem.says(NOT_FOUND, "Not Found"@, "请求的资源不存在"@),
{
    self::problem(NOT_FOUND, "Not Found", "请求的资源不存在")
}

} // verus!
