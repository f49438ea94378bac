//! What answers to requests say.

use crate::handlers;
use crate::handlers::{HeartbeatReply, Problem, ServiceDetails, ServiceListing};
use crate::models::{ServiceStateView, ServiceStatus};
use vstd::prelude::*;

verus! {

/// The status codes are those of HTTP.
pub proof fn law_status_codes()
    ensures
        handlers::OK == 200,
        handlers::ACCEPTED == 202,
        handlers::NOT_FOUND == 404,
        handlers::SERVICE_UNAVAILABLE == 503,
{
}

/// A problem has no type of its own, and tells its status, its title and its detail.
pub proof fn law_problem(problem: Problem, status: u16, title: Seq<char>, detail: Seq<char>)
    requires
        problem.says(status, title, detail),
    ensures
        problem.problem_type@ == "about:blank"@,
        problem.status == status,
        problem.title@ == title,
        problem.detail@ == detail,
{
}

/// A service that is not there is named in the problem.
pub proof fn law_missing_service(problem: Problem, name: Seq<char>)
    requires
        problem.no_service(name),
    ensures
        problem.problem_type@ == "about:blank"@,
        problem.status == 404,
        problem.title@ == "Not Found"@,
        problem.detail@ == "服务 '"@ + name + "' 不存在"@,
{
}

/// A service is listed with its name, its status and the times of its last check and success.
pub proof fn law_listing(listing: ServiceListing, state: ServiceStateView)
    requires
        listing.shows(state),
    ensures
        listing.name@ == state.name,
        listing.status == state.status,
        listing.last_check == state.last_check,
        listing.last_success == state.last_success,
{
}

/// The details of a service are those of its state.
pub proof fn law_details(details: ServiceDetails, state: ServiceStateView)
    requires
        details.shows(state),
    ensures
        details.name@ == state.name,
        details.status == state.status,
        details.last_check == state.last_check,
        details.last_success == state.last_success,
        details.last_error is Some <==> state.last_error is Some,
        details.last_error is Some ==> details.last_error->0@ == state.last_error->0,
        details.consecutive_successes == state.consecutive_successes,
        details.consecutive_failures == state.consecutive_failures,
        details.status_since == state.status_since,
{
}

/// The answer to a sign of life names the service, and its new status if it has one.
pub proof fn law_heartbeat_answer(
    reply: HeartbeatReply,
    name: Seq<char>,
    change: Option<ServiceStatus>,
)
    requires
        reply.confirms(name, change),
    ensures
        reply.name@ == name,
        reply.status_changed <==> change is Some,
        change is None ==> reply.message@ == "心跳已接收"@,
        change is Some ==> reply.message@ == "心跳已接收，状态更新为 "@ + match change->0 {
            ServiceStatus::Unknown => "unknown"@,
            ServiceStatus::Healthy => "healthy"@,
            ServiceStatus::Degraded => "degraded"@,
            ServiceStatus::Unhealthy => "unhealthy"@,
        },
{
}

} // verus!
