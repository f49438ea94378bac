//! The data that the monitor keeps and reports.

use crate::clock;
use crate::clock::Timestamp;
use crate::walk::Tree;
use vstd::prelude::*;

verus! {

/// The texts that a list of strings holds.
pub open spec fn texts(list: Seq<String>) -> Seq<Seq<char>> {
    list.map_values(|text: String| text@)
}

/// The text that an optional string holds.
pub open spec fn optional_text(text: Option<String>) -> Option<Seq<char>> {
    match text {
        Some(text) => Some(text@),
        None => None,
    }
}

/// Copies a list of strings.
pub fn copy_texts(list: &Vec<String>) -> (copy: Vec<String>)
    ensures
        texts(copy@) == texts(list@),
{
    let mut copy: Vec<String> = Vec::new();
    for i in 0..list.len()
        invariant
            copy@ == list@.take(i as int),
    {
        copy.push(list[i].clone());
        assert(list@.take(i + 1) =~= list@.take(i as int).push(list@[i as int]));
    }
    assert(list@.take(list@.len() as int) =~= list@);
    copy
}

/// How a service is doing.
#[derive(Debug, Clone, Copy, PartialEq, Eq, Hash, Structural)]
pub enum ServiceStatus {
    Unknown,
    Healthy,
    Degraded,
    Unhealthy,
}

impl ServiceStatus {
    /// Whether something is wrong with the service.
    pub open spec fn troubled(self) -> bool {
        self is Unhealthy || self is Degraded
    }

    /// Whether something is wrong with the service.
    pub fn is_troubled(&self) -> (wrong: bool)
        ensures
            wrong == self.troubled(),
    {
        match self {
            ServiceStatus::Unhealthy | ServiceStatus::Degraded => true,
            _ => false,
        }
    }

    /// The lower case name of the status.
    pub open spec fn text(self) -> Seq<char> {
        match self {
            ServiceStatus::Unknown => "unknown"@,
            ServiceStatus::Healthy => "healthy"@,
            ServiceStatus::Degraded => "degraded"@,
            ServiceStatus::Unhealthy => "unhealthy"@,
        }
    }

    /// The lower case name of the status.
    pub fn to_string(&self) -> (text: String)
        ensures
            text@ == self.text(),
    {
        match self {
            ServiceStatus::Unknown => "unknown".to_owned(),
            ServiceStatus::Healthy => "healthy".to_owned(),
            ServiceStatus::Degraded => "degraded".to_owned(),
            ServiceStatus::Unhealthy => "unhealthy".to_owned(),
        }
    }
}

/// How a service is probed.
#[derive(Debug, Clone, Copy, PartialEq, Eq, Structural)]
pub enum CheckType {
    Http,
    Tcp,
    Command,
}

/// What is configured for a service.
#[derive(Debug)]
pub struct ServiceConfig {
    pub name: String,
    pub url: String,
    pub check_type: CheckType,
    pub check_path: String,
    pub interval_secs: u64,
    pub timeout_secs: u64,
    pub unhealthy_threshold: u32,
    pub degraded_threshold: u32,
    pub healthy_threshold: u32,
    pub dependencies: Vec<String>,
    pub passive: bool,
    pub heartbeat_timeout_secs: u64,
    pub alert_after_secs: u64,
    pub command: Option<String>,
    pub command_args: Vec<String>,
}

/// What is configured for a service, in mathematical terms.
pub struct ServiceConfigView {
    pub name: Seq<char>,
    pub url: Seq<char>,
    pub check_type: CheckType,
    pub check_path: Seq<char>,
    pub interval_secs: u64,
    pub timeout_secs: u64,
    pub unhealthy_threshold: u32,
    pub degraded_threshold: u32,
    pub healthy_threshold: u32,
    pub dependencies: Seq<Seq<char>>,
    pub passive: bool,
    pub heartbeat_timeout_secs: u64,
    pub alert_after_secs: u64,
    pub command: Option<Seq<char>>,
    pub command_args: Seq<Seq<char>>,
}

impl View for ServiceConfig {
    type V = ServiceConfigView;

    open spec fn view(&self) -> ServiceConfigView {
        ServiceConfigView {
            name: self.name@,
            url: self.url@,
            check_type: self.check_type,
            check_path: self.check_path@,
            interval_secs: self.interval_secs,
            timeout_secs: self.timeout_secs,
            unhealthy_threshold: self.unhealthy_threshold,
            degraded_threshold: self.degraded_threshold,
            healthy_threshold: self.healthy_threshold,
            dependencies: texts(self.dependencies@),
            passive: self.passive,
            heartbeat_timeout_secs: self.heartbeat_timeout_secs,
            alert_after_secs: self.alert_after_secs,
            command: optional_text(self.command),
            command_args: texts(self.command_args@),
        }
    }
}

impl Clone for ServiceConfig {
    fn clone(&self) -> (copy: Self)
        ensures
            copy@ == self@,
    {
        ServiceConfig {
            name: self.name.clone(),
            url: self.url.clone(),
            check_type: self.check_type,
            check_path: self.check_path.clone(),
            interval_secs: self.interval_secs,
            timeout_secs: self.timeout_secs,
            unhealthy_threshold: self.unhealthy_threshold,
            degraded_threshold: self.degraded_threshold,
            healthy_threshold: self.healthy_threshold,
            dependencies: copy_texts(&self.dependencies),
            passive: self.passive,
            heartbeat_timeout_secs: self.heartbeat_timeout_secs,
            alert_after_secs: self.alert_after_secs,
            command: self.command.clone(),
            command_args: copy_texts(&self.command_args),
        }
    }
}

/// The path that is probed where none is configured.
pub fn default_check_path() -> (path: String)
    ensures
        path@ == "/health"@,
{
    "/health".to_owned()
}

/// The seconds between two probes where none are configured.
pub fn default_interval_secs() -> (secs: u64)
    ensures
        secs == 30,
{
    30
}

/// The seconds that a probe may take where none are configured.
pub fn default_timeout_secs() -> (secs: u64)
    ensures
        secs == 5,
{
    5
}

/// The failures in a row that make a degraded service unhealthy where none are configured.
pub fn default_unhealthy_threshold() -> (count: u32)
    ensures
        count == 3,
{
    3
}

/// The failures in a row that degrade a healthy service where none are configured.
pub fn default_degraded_threshold() -> (count: u32)
    ensures
        count == 2,
{
    2
}

/// The successes in a row that raise a service where none are configured.
pub fn default_healthy_threshold() -> (count: u32)
    ensures
        count == 2,
{
    2
}

/// The seconds that a heartbeat lasts where none are configured.
pub fn default_heartbeat_timeout_secs() -> (secs: u64)
    ensures
        secs == 60,
{
    60
}

/// The seconds of trouble before an alert where none are configured.
pub fn default_alert_after_secs() -> (secs: u64)
    ensures
        secs == 60,
{
    60
}

/// A change of status, with when and why it came.
#[derive(Debug)]
pub struct StateHistoryEntry {
    pub from: ServiceStatus,
    pub to: ServiceStatus,
    pub timestamp: Timestamp,
    pub reason: String,
}

/// A change of status, in mathematical terms.
pub struct StateHistoryEntryView {
    pub from: ServiceStatus,
    pub to: ServiceStatus,
    pub timestamp: Timestamp,
    pub reason: Seq<char>,
}

impl View for StateHistoryEntry {
    type V = StateHistoryEntryView;

    open spec fn view(&self) -> StateHistoryEntryView {
        StateHistoryEntryView {
            from: self.from,
            to: self.to,
            timestamp: self.timestamp,
            reason: self.reason@,
        }
    }
}

impl Clone for StateHistoryEntry {
    fn clone(&self) -> (copy: Self)
        ensures
            copy == *self,
    {
        StateHistoryEntry {
            from: self.from,
            to: self.to,
            timestamp: self.timestamp,
            reason: self.reason.clone(),
        }
    }
}

/// What is known of a service.
#[derive(Debug)]
pub struct ServiceState {
    pub name: String,
    pub status: ServiceStatus,
    pub last_check: Option<Timestamp>,
    pub last_success: Option<Timestamp>,
    pub last_error: Option<String>,
    pub consecutive_successes: u32,
    pub consecutive_failures: u32,
    pub last_heartbeat: Option<Timestamp>,
    pub status_since: Timestamp,
}

/// What is known of a service, in mathematical terms.
pub struct ServiceStateView {
    pub name: Seq<char>,
    pub status: ServiceStatus,
    pub last_check: Option<Timestamp>,
    pub last_success: Option<Timestamp>,
    pub last_error: Option<Seq<char>>,
    pub consecutive_successes: nat,
    pub consecutive_failures: nat,
    pub last_heartbeat: Option<Timestamp>,
    pub status_since: Timestamp,
}

impl View for ServiceState {
    type V = ServiceStateView;

    open spec fn view(&self) -> ServiceStateView {
        ServiceStateView {
            name: self.name@,
            status: self.status,
            last_check: self.last_check,
            last_success: self.last_success,
            last_error: optional_text(self.last_error),
            consecutive_successes: self.consecutive_successes as nat,
            consecutive_failures: self.consecutive_failures as nat,
            last_heartbeat: self.last_heartbeat,
            status_since: self.status_since,
        }
    }
}

impl Clone for ServiceState {
    fn clone(&self) -> (copy: Self)
        ensures
            copy == *self,
    {
        ServiceState {
            name: self.name.clone(),
            status: self.status,
            last_check: self.last_check,
            last_success: self.last_success,
            last_error: self.last_error.clone(),
            consecutive_successes: self.consecutive_successes,
            consecutive_failures: self.consecutive_failures,
            last_heartbeat: self.last_heartbeat,
            status_since: self.status_since,
        }
    }
}

impl ServiceStateView {
    /// A service of which nothing is known yet, since `now`.
    pub open spec fn fresh(name: Seq<char>, now: Timestamp) -> ServiceStateView {
        ServiceStateView {
            name,
            status: ServiceStatus::Unknown,
            last_check: None,
            last_success: None,
            last_error: None,
            consecutive_successes: 0,
            consecutive_failures: 0,
            last_heartbeat: None,
            status_since: now,
        }
    }
}

impl ServiceState {
    /// A service of which nothing is known yet, since the current time.
    pub fn new(name: String) -> (state: Self)
        ensures
            exists|now: Timestamp|
                now.shown() && state@ == #[trigger] ServiceStateView::fresh(name@, now),
    {
        let now = clock::utc_now();
        ServiceState::new_at(name, now)
    }

    /// A service of which nothing is known yet, since `now`.
    pub fn new_at(name: String, now: Timestamp) -> (state: Self)
        ensures
            state@ == ServiceStateView::fresh(name@, now),
    {
        ServiceState {
            name,
            status: ServiceStatus::Unknown,
            last_check: None,
            last_success: None,
            last_error: None,
            consecutive_successes: 0,
            consecutive_failures: 0,
            last_heartbeat: None,
            status_since: now,
        }
    }
}

/// How many services have which status.
#[derive(Debug, Clone, Copy, PartialEq, Eq, Structural)]
pub struct ReportSummary {
    pub total: usize,
    pub healthy: usize,
    pub degraded: usize,
    pub unhealthy: usize,
    pub unknown: usize,
}

/// A sign of life that a service sends.
#[derive(Debug)]
pub struct HeartbeatRequest {
    pub name: String,
    pub status: Option<ServiceStatus>,
}

impl Clone for HeartbeatRequest {
    fn clone(&self) -> (copy: Self)
        ensures
            copy == *self,
    {
        HeartbeatRequest { name: self.name.clone(), status: self.status }
    }
}

/// A service as the dependency graph shows it, with what it depends on below it.
#[derive(Debug)]
pub struct DependencyNode {
    pub name: String,
    pub status: ServiceStatus,
    pub dependencies: Vec<DependencyNode>,
}

impl DependencyNode {
    /// The node and all below it as a mathematical tree.
    pub open spec fn tree(self) -> Tree
        decreases self,
    {
        Tree {
            name: self.name@,
            status: self.status,
            children: Seq::new(
                self.dependencies@.len(),
                |i: int|
                    if 0 <= i < self.dependencies@.len() {
                        self.dependencies@[i].tree()
                    } else {
                        arbitrary()
                    },
            ),
        }
    }
}

impl Clone for DependencyNode {
    fn clone(&self) -> (copy: Self)
        ensures
            copy.tree() == self.tree(),
        decreases self,
    {
        let mut dependencies: Vec<DependencyNode> = Vec::new();
        for i in 0..self.dependencies.len()
            invariant
                dependencies@.len() == i,
                forall|j: int|
                    0 <= j < i ==> (#[trigger] dependencies@[j]).tree()
                        == self.dependencies@[j].tree(),
        {
            dependencies.push(self.dependencies[i].clone());
        }
        let copy = DependencyNode { name: self.name.clone(), status: self.status, dependencies };
        assert(copy.tree().children =~= self.tree().children);
        copy
    }
}

/// A service in trouble that none of its own dependencies explains.
#[derive(Debug)]
pub struct RootCauseResult {
    pub service: String,
    pub depth: usize,
    pub status: ServiceStatus,
}

impl Clone for RootCauseResult {
    fn clone(&self) -> (copy: Self)
        ensures
            copy == *self,
    {
        RootCauseResult { service: self.service.clone(), depth: self.depth, status: self.status }
    }
}

} // verus!
