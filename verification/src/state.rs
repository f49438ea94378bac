//! What the monitor knows of all services.

use crate::clock;
use crate::clock::Timestamp;
use crate::history;
use crate::history::History;
use crate::models;
use crate::models::{ReportSummary, ServiceConfig, ServiceState, ServiceStatus, StateHistoryEntry};
use crate::names::NameMap;
use crate::registry;
use crate::registry::AppStateView;
use crate::text;
use vstd::prelude::*;
use vstd::string::*;

verus! {

/// What the monitor knows of all services.
pub struct AppState {
    pub services: NameMap<ServiceState>,
    pub configs: NameMap<ServiceConfig>,
    pub history: NameMap<History>,
}

impl View for AppState {
    type V = AppStateView;

    open spec fn view(&self) -> AppStateView {
        AppStateView {
            services: self.services@.map_values(|state: ServiceState| state@),
            configs: self.configs@.map_values(|config: ServiceConfig| config@),
            history: self.history@.map_values(|history: History| history@),
        }
    }
}

/// The status after a check, where the check is counted in `state` already.
pub fn next_status(
    current: ServiceStatus,
    success: bool,
    state: &ServiceState,
    config: &ServiceConfig,
) -> (status: ServiceStatus)
    ensures
        status == registry::status_after(current, success, state@, config@),
{
    match current {
        ServiceStatus::Unknown => {
            if success {
                ServiceStatus::Healthy
            } else {
                ServiceStatus::Unhealthy
            }
        },
        ServiceStatus::Healthy => {
            if success {
                ServiceStatus::Healthy
            } else if state.consecutive_failures >= config.degraded_threshold {
                ServiceStatus::Degraded
            } else {
                ServiceStatus::Healthy
            }
        },
        ServiceStatus::Degraded => {
            if success {
                if state.consecutive_successes >= config.healthy_threshold {
                    ServiceStatus::Healthy
                } else {
                    ServiceStatus::Degraded
                }
            } else if state.consecutive_failures >= config.unhealthy_threshold {
                ServiceStatus::Unhealthy
            } else {
                ServiceStatus::Degraded
            }
        },
        ServiceStatus::Unhealthy => {
            if success {
                if state.consecutive_successes >= config.healthy_threshold {
                    ServiceStatus::Degraded
                } else {
                    ServiceStatus::Unhealthy
                }
            } else {
                ServiceStatus::Unhealthy
            }
        },
    }
}

/// Why a check changed a status.
fn check_reason(success: bool, state: &ServiceState, error: &Option<String>) -> (reason: String)
    ensures
        reason@ == registry::check_reason(success, state@, models::optional_text(*error)),
{
    if success {
        text::enclose(
            "连续 ",
            text::decimal_text(state.consecutive_successes as u64).as_str(),
            " 次检查成功",
        )
    } else {
        let mut reason = text::enclose(
            "连续 ",
            text::decimal_text(state.consecutive_failures as u64).as_str(),
            " 次检查失败: ",
        );
        match error {
            Some(error) => reason.append(error.as_str()),
            None => reason.append("未知错误"),
        }
        reason
    }
}

impl AppState {
    /// A monitor that knows of no service.
    pub fn new() -> (app: Self)
        ensures
            app@ == AppStateView::empty(),
    {
        let app = AppState {
            services: NameMap::new(),
            configs: NameMap::new(),
            history: NameMap::new(),
        };
        assert(app@ =~= AppStateView::empty());
        app
    }

    /// Takes up a service of which nothing is known yet, since the current time.
    pub fn add_service(&mut self, config: ServiceConfig)
        ensures
            exists|now: Timestamp|
                now.shown() && final(self)@ == #[trigger] old(self)@.added(config@, now),
    {
        let now = clock::utc_now();
        self.add_service_at(config, now);
    }

    /// Takes up a service of which nothing is known yet, since `now`.
    pub fn add_service_at(&mut self, config: ServiceConfig, now: Timestamp)
        ensures
            final(self)@ == old(self)@.added(config@, now),
    {
        let name = config.name.clone();
        self.services.insert(name.clone(), ServiceState::new_at(name.clone(), now));
        self.configs.insert(name.clone(), config);
        self.history.insert(name, History::new());
        assert(self@ =~= old(self)@.added(config@, now));
    }

    /// Forgets a service.
    pub fn remove_service(&mut self, name: &str)
        ensures
            final(self)@ == old(self)@.removed(name@),
    {
        self.services.remove(name);
        self.configs.remove(name);
        self.history.remove(name);
        assert(self@ =~= old(self)@.removed(name@));
    }

    /// Takes another configuration of a service.
    pub fn update_service_config(&mut self, config: ServiceConfig)
        ensures
            final(self)@ == old(self)@.reconfigured(config@),
    {
        let name = config.name.clone();
        self.configs.insert(name, config);
        assert(self@ =~= old(self)@.reconfigured(config@));
    }

    /// Whether one more result can be counted for a service.
    pub fn can_count(&self, service_name: &str, success: bool) -> (countable: bool)
        ensures
            countable == self@.countable(service_name@, success),
    {
        if !self.configs.contains_key(service_name) {
            return true;
        }
        match self.services.get(service_name) {
            Some(state) => {
                if success {
                    state.consecutive_successes < u32::MAX
                } else {
                    state.consecutive_failures < u32::MAX
                }
            },
            None => true,
        }
    }

    /// Whether the last sign of life of a service can be looked for.
    pub fn can_watch(&self, service_name: &str) -> (watchable: bool)
        ensures
            watchable == self@.watchable(service_name@),
    {
        match self.configs.get(service_name) {
            Some(config) => {
                !config.passive || !self.services.contains_key(service_name) || (clock::has_span(
                    config.heartbeat_timeout_secs,
                ) && self.can_count(service_name, false))
            },
            None => true,
        }
    }

    /// Notes the result of a check at the current time. Hands back the new status of the
    /// service, if it changes.
    pub fn apply_check_result(
        &mut self,
        service_name: &str,
        success: bool,
        error: Option<String>,
    ) -> (changed: Option<ServiceStatus>)
        requires
            old(self)@.countable(service_name@, success),
        ensures
            changed == old(self)@.change(service_name@, success),
            exists|now: Timestamp|
                now.shown() && final(self)@ == #[trigger] old(self)@.checked(
                    service_name@,
                    success,
                    models::optional_text(error),
                    now,
                ),
    {
        let now = clock::utc_now();
        self.apply_check_result_at(service_name, success, error, now)
    }

    /// Notes the result of a check at `now`. Hands back the new status of the service, if it
    /// changes.
    pub fn apply_check_result_at(
        &mut self,
        service_name: &str,
        success: bool,
        error: Option<String>,
        now: Timestamp,
    ) -> (changed: Option<ServiceStatus>)
        requires
            old(self)@.countable(service_name@, success),
        ensures
            changed == old(self)@.change(service_name@, success),
            final(self)@ == old(self)@.checked(
                service_name@,
                success,
                models::optional_text(error),
                now,
            ),
    {
        let ghost before = self@;
        let ghost name = service_name@;
        let ghost expected = before.checked(name, success, models::optional_text(error), now);
        let config = match self.configs.get(service_name) {
            Some(config) => config,
            None => return None,
        };
        let state = match self.services.get_mut(service_name) {
            Some(state) => state,
            None => return None,
        };
        state.last_check = Some(now);
        if success {
            state.last_success = Some(now);
            state.consecutive_successes = state.consecutive_successes + 1;
            state.consecutive_failures = 0;
        } else {
            state.consecutive_failures = state.consecutive_failures + 1;
            state.consecutive_successes = 0;
        }
        let reason = check_reason(success, state, &error);
        state.last_error = if success {
            None
        } else {
            error
        };
        let old_status = state.status;
        let new_status = next_status(old_status, success, state, config);
        if old_status != new_status {
            state.status = new_status;
            state.status_since = now;
            if let Some(history) = self.history.get_mut(service_name) {
                history.record(
                    StateHistoryEntry { from: old_status, to: new_status, timestamp: now, reason },
                );
            }
            assert(self@ =~= expected);
            Some(new_status)
        } else {
            assert(self@ =~= expected);
            None
        }
    }

    /// Notes a sign of life of a service at the current time. Hands back the new status of the
    /// service, if it changes.
    pub fn record_heartbeat(&mut self, service_name: &str) -> (changed: Option<ServiceStatus>)
        requires
            old(self)@.countable(service_name@, true),
        ensures
            changed == old(self)@.change(service_name@, true),
            exists|now: Timestamp|
                now.shown() && final(self)@ == #[trigger] old(self)@.beaten(service_name@, now),
    {
        let now = clock::utc_now();
        self.record_heartbeat_at(service_name, now)
    }

    /// Notes a sign of life of a service at `now`. Hands back the new status of the service, if
    /// it changes.
    pub fn record_heartbeat_at(&mut self, service_name: &str, now: Timestamp) -> (changed: Option<
        ServiceStatus,
    >)
        requires
            old(self)@.countable(service_name@, true),
        ensures
            changed == old(self)@.change(service_name@, true),
            final(self)@ == old(self)@.beaten(service_name@, now),
    {
        let ghost expected = self@.beaten(service_name@, now);
        let config = match self.configs.get(service_name) {
            Some(config) => config,
            None => return None,
        };
        let state = match self.services.get_mut(service_name) {
            Some(state) => state,
            None => return None,
        };
        state.last_heartbeat = Some(now);
        state.last_check = Some(now);
        state.last_success = Some(now);
        state.last_error = None;
        state.consecutive_successes = state.consecutive_successes + 1;
        state.consecutive_failures = 0;
        let old_status = state.status;
        let new_status = next_status(old_status, true, state, config);
        if old_status != new_status {
            state.status = new_status;
            state.status_since = now;
            if let Some(history) = self.history.get_mut(service_name) {
                history.record(
                    StateHistoryEntry {
                        from: old_status,
                        to: new_status,
                        timestamp: now,
                        reason: "收到心跳".to_owned(),
                    },
                );
            }
            assert(self@ =~= expected);
            Some(new_status)
        } else {
            assert(self@ =~= expected);
            None
        }
    }

    /// Looks for the last sign of life of a service that has to give them. That there was none
    /// in time counts as a failed check. Hands back the new status of the service, if it
    /// changes.
    pub fn check_heartbeat_timeout(&mut self, service_name: &str) -> (changed: Option<
        ServiceStatus,
    >)
        requires
            old(self)@.watchable(service_name@),
        ensures
            exists|now: Timestamp, later: Timestamp|
                {
                    &&& now.shown()
                    &&& later.shown()
                    &&& final(self)@ == #[trigger] old(self)@.timed(service_name@, now, later)
                    &&& changed == if old(self)@.lapsed(service_name@, now) {
                        old(self)@.change(service_name@, false)
                    } else {
                        None
                    }
                },
    {
        let now = clock::utc_now();
        let later = clock::utc_now();
        self.check_heartbeat_timeout_at(service_name, now, later)
    }

    /// Looks at `now` for the last sign of life of a service that has to give them. That there
    /// was none in time counts as a failed check at `later`. Hands back the new status of the
    /// service, if it changes.
    pub fn check_heartbeat_timeout_at(
        &mut self,
        service_name: &str,
        now: Timestamp,
        later: Timestamp,
    ) -> (changed: Option<ServiceStatus>)
        requires
            old(self)@.passive(service_name@) ==> clock::is_span(
                old(self)@.configs[service_name@].heartbeat_timeout_secs,
            ),
            old(self)@.lapsed(service_name@, now) ==> old(self)@.countable(service_name@, false),
        ensures
            final(self)@ == old(self)@.timed(service_name@, now, later),
            changed == if old(self)@.lapsed(service_name@, now) {
                old(self)@.change(service_name@, false)
            } else {
                None
            },
    {
        let (passive, timeout_secs) = match self.configs.get(service_name) {
            Some(config) => (config.passive, config.heartbeat_timeout_secs),
            None => return None,
        };
        let last_heartbeat = match self.services.get(service_name) {
            Some(state) => state.last_heartbeat,
            None => return None,
        };
        if !passive {
            return None;
        }
        let timeout = clock::seconds(clock::signed_secs(timeout_secs));
        let timed_out = match last_heartbeat {
            Some(last) => {
                proof {
                    use_type_invariant(&last);
                    use_type_invariant(&now);
                }
                clock::time_between(last, now).exceeds(&timeout)
            },
            None => true,
        };
        if timed_out {
            self.apply_check_result_at(service_name, false, Some("心跳超时".to_owned()), later)
        } else {
            None
        }
    }

    /// The last status changes of a service, the newest first.
    pub fn get_history(&self, service_name: &str) -> (entries: Vec<StateHistoryEntry>)
        ensures
            entries@.map_values(|entry: StateHistoryEntry| entry@) == self@.changes(service_name@),
            entries@.len() <= history::HISTORY_CAPACITY,
    {
        match self.history.get(service_name) {
            Some(history) => history.newest_first(),
            None => {
                let entries: Vec<StateHistoryEntry> = Vec::new();
                assert(entries@.map_values(|entry: StateHistoryEntry| entry@) =~= Seq::empty());
                entries
            },
        }
    }

    /// How many services there are, and how many of them have which status.
    pub fn get_report_summary(&self) -> (summary: ReportSummary)
        ensures
            summary.total == self@.services.len(),
            summary.healthy == self@.count(ServiceStatus::Healthy),
            summary.degraded == self@.count(ServiceStatus::Degraded),
            summary.unhealthy == self@.count(ServiceStatus::Unhealthy),
            summary.unknown == self@.count(ServiceStatus::Unknown),
            summary.total == summary.healthy + summary.degraded + summary.unhealthy
                + summary.unknown,
    {
        let total: usize = self.services.len();
        let ghost names = self.services.names();
        let mut summary = ReportSummary {
            total,
            healthy: 0,
            degraded: 0,
            unhealthy: 0,
            unknown: 0,
        };
        proof {
            assert(self@.services.dom() =~= self.services@.dom());
            assert(names.take(0).to_set() =~= Set::empty());
            self@.lemma_count_none();
        }
        for i in 0..total
            invariant
                names == self.services.names(),
                total == names.len(),
                names.no_duplicates(),
                summary.total == total,
                summary.healthy + summary.degraded + summary.unhealthy + summary.unknown == i,
                names.take(i as int).to_set().finite(),
                summary.healthy == self@.count_in(
                    names.take(i as int).to_set(),
                    ServiceStatus::Healthy,
                ),
                summary.degraded == self@.count_in(
                    names.take(i as int).to_set(),
                    ServiceStatus::Degraded,
                ),
                summary.unhealthy == self@.count_in(
                    names.take(i as int).to_set(),
                    ServiceStatus::Unhealthy,
                ),
                summary.unknown == self@.count_in(
                    names.take(i as int).to_set(),
                    ServiceStatus::Unknown,
                ),
        {
            let state = self.services.value_at(i);
            proof {
                let name = names[i as int];
                let before = names.take(i as int);
                assert(names.take(i + 1) =~= before.push(name));
                assert(!before.contains(name));
                assert(before.push(name).to_set() =~= before.to_set().insert(name)) by {
                    assert(before.push(name)[i as int] == name);
                    assert forall|other: Seq<char>| before.contains(other) implies
                        #[trigger] before.push(name).contains(other) by {
                        let k = choose|k: int| 0 <= k < before.len() && before[k] == other;
                        assert(before.push(name)[k] == other);
                    }
                }
                self@.lemma_count_more(before.to_set(), name);
            }
            match state.status {
                ServiceStatus::Healthy => summary.healthy = summary.healthy + 1,
                ServiceStatus::Degraded => summary.degraded = summary.degraded + 1,
                ServiceStatus::Unhealthy => summary.unhealthy = summary.unhealthy + 1,
                ServiceStatus::Unknown => summary.unknown = summary.unknown + 1,
            }
        }
        assert(names.take(total as int) =~= names);
        summary
    }
}

impl Default for AppState {
    fn default() -> (app: Self)
        ensures
            app@ == AppStateView::empty(),
    {
        AppState::new()
    }
}

} // verus!
