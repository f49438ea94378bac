//! What the monitor knows of all services, and how it changes, in mathematical terms.

use crate::clock;
use crate::clock::Timestamp;
use crate::history;
use crate::models::{
    ServiceConfigView, ServiceStateView, ServiceStatus, StateHistoryEntryView,
};
use crate::text;
use vstd::prelude::*;

verus! {

/// What the monitor knows of all services.
#[verifier::ext_equal]
pub struct AppStateView {
    pub services: Map<Seq<char>, ServiceStateView>,
    pub configs: Map<Seq<char>, ServiceConfigView>,
    pub history: Map<Seq<char>, Seq<StateHistoryEntryView>>,
}

/// The status after a check: where enough checks in a row agree, it moves one step towards
/// what they say. The first check of all decides at once.
pub open spec fn status_after(
    current: ServiceStatus,
    success: bool,
    state: ServiceStateView,
    config: ServiceConfigView,
) -> ServiceStatus {
    if success {
        match current {
            ServiceStatus::Unknown => ServiceStatus::Healthy,
            ServiceStatus::Degraded if state.consecutive_successes >= config.healthy_threshold =>
                ServiceStatus::Healthy,
            ServiceStatus::Unhealthy if state.consecutive_successes >= config.healthy_threshold =>
                ServiceStatus::Degraded,
            _ => current,
        }
    } else {
        match current {
            ServiceStatus::Unknown => ServiceStatus::Unhealthy,
            ServiceStatus::Healthy if state.consecutive_failures >= config.degraded_threshold =>
                ServiceStatus::Degraded,
            ServiceStatus::Degraded if state.consecutive_failures >= config.unhealthy_threshold =>
                ServiceStatus::Unhealthy,
            _ => current,
        }
    }
}

/// Why a check changed a status.
pub open spec fn check_reason(
    success: bool,
    state: ServiceStateView,
    error: Option<Seq<char>>,
) -> Seq<char> {
    if success {
        "连续 "@ + text::decimal(state.consecutive_successes) + " 次检查成功"@
    } else {
        "连续 "@ + text::decimal(state.consecutive_failures) + " 次检查失败: "@ + match error {
            Some(error) => error,
            None => "未知错误"@,
        }
    }
}

impl ServiceStateView {
    /// The state with a check counted: the run of equal results grows, the other one ends.
    pub open spec fn counted(self, success: bool) -> ServiceStateView {
        ServiceStateView {
            consecutive_successes: if success {
                self.consecutive_successes + 1
            } else {
                0
            },
            consecutive_failures: if success {
                0
            } else {
                self.consecutive_failures + 1
            },
            ..self
        }
    }

    /// The state with what a check at `now` showed.
    pub open spec fn checked(
        self,
        success: bool,
        error: Option<Seq<char>>,
        now: Timestamp,
    ) -> ServiceStateView {
        ServiceStateView {
            last_check: Some(now),
            last_success: if success {
                Some(now)
            } else {
                self.last_success
            },
            last_error: if success {
                None
            } else {
                error
            },
            ..self.counted(success)
        }
    }

    /// The state with a sign of life at `now`, which counts as a successful check.
    pub open spec fn beaten(self, now: Timestamp) -> ServiceStateView {
        ServiceStateView { last_heartbeat: Some(now), ..self.checked(true, None, now) }
    }

    /// The state with a status that it has since `now`, if it did not have it before.
    pub open spec fn moved(self, status: ServiceStatus, now: Timestamp) -> ServiceStateView {
        if status == self.status {
            self
        } else {
            ServiceStateView { status, status_since: now, ..self }
        }
    }

    /// Whether the last sign of life is older than `timeout` seconds, or there was none.
    pub open spec fn silent(self, timeout: u64, now: Timestamp) -> bool {
        match self.last_heartbeat {
            Some(last) => now.instant() - last.instant() > clock::as_signed(timeout)
                * 1_000_000_000,
            None => true,
        }
    }
}

impl AppStateView {
    /// A monitor that knows of no service.
    pub open spec fn empty() -> AppStateView {
        AppStateView { services: Map::empty(), configs: Map::empty(), history: Map::empty() }
    }

    /// Whether a service is there and configured.
    pub open spec fn monitored(self, name: Seq<char>) -> bool {
        self.configs.contains_key(name) && self.services.contains_key(name)
    }

    /// Whether one more result can be counted for a service.
    pub open spec fn countable(self, name: Seq<char>, success: bool) -> bool {
        self.monitored(name) ==> if success {
            self.services[name].consecutive_successes < u32::MAX
        } else {
            self.services[name].consecutive_failures < u32::MAX
        }
    }

    /// The status that a service has after one more result.
    pub open spec fn next_status(self, name: Seq<char>, success: bool) -> ServiceStatus {
        status_after(
            self.services[name].status,
            success,
            self.services[name].counted(success),
            self.configs[name],
        )
    }

    /// The new status of a service after one more result, if it changes.
    pub open spec fn change(self, name: Seq<char>, success: bool) -> Option<ServiceStatus> {
        if self.monitored(name) && self.next_status(name, success) != self.services[name].status {
            Some(self.next_status(name, success))
        } else {
            None
        }
    }

    /// A service with its new state; where its status changes, that is remembered.
    pub open spec fn settled(
        self,
        name: Seq<char>,
        state: ServiceStateView,
        to: ServiceStatus,
        reason: Seq<char>,
        now: Timestamp,
    ) -> AppStateView {
        AppStateView {
            services: self.services.insert(name, state.moved(to, now)),
            history: if to != state.status && self.history.contains_key(name) {
                self.history.insert(
                    name,
                    history::remember(
                        self.history[name],
                        StateHistoryEntryView { from: state.status, to, timestamp: now, reason },
                    ),
                )
            } else {
                self.history
            },
            ..self
        }
    }

    /// After a check of a service at `now`.
    pub open spec fn checked(
        self,
        name: Seq<char>,
        success: bool,
        error: Option<Seq<char>>,
        now: Timestamp,
    ) -> AppStateView {
        if self.monitored(name) {
            let state = self.services[name].checked(success, error, now);
            self.settled(
                name,
                state,
                self.next_status(name, success),
                check_reason(success, state, error),
                now,
            )
        } else {
            self
        }
    }

    /// After a sign of life of a service at `now`.
    pub open spec fn beaten(self, name: Seq<char>, now: Timestamp) -> AppStateView {
        if self.monitored(name) {
            self.settled(
                name,
                self.services[name].beaten(now),
                self.next_status(name, true),
                "收到心跳"@,
                now,
            )
        } else {
            self
        }
    }

    /// Whether a service has to give signs of life.
    pub open spec fn passive(self, name: Seq<char>) -> bool {
        self.monitored(name) && self.configs[name].passive
    }

    /// Whether a service has to give signs of life, and has not given one in time.
    pub open spec fn lapsed(self, name: Seq<char>, now: Timestamp) -> bool {
        self.passive(name) && self.services[name].silent(
            self.configs[name].heartbeat_timeout_secs,
            now,
        )
    }

    /// Whether the monitor can look for the last sign of life of a service: its timeout makes a
    /// time span, and one more failure can be counted.
    pub open spec fn watchable(self, name: Seq<char>) -> bool {
        self.passive(name) ==> {
            &&& clock::is_span(self.configs[name].heartbeat_timeout_secs)
            &&& self.countable(name, false)
        }
    }

    /// After a look at `now` for the last sign of life of a service. That there was none in
    /// time counts as a failed check at `later`.
    pub open spec fn timed(self, name: Seq<char>, now: Timestamp, later: Timestamp) -> AppStateView {
        if self.lapsed(name, now) {
            self.checked(name, false, Some("心跳超时"@), later)
        } else {
            self
        }
    }

    /// With a service of which nothing is known yet, since `now`.
    pub open spec fn added(self, config: ServiceConfigView, now: Timestamp) -> AppStateView {
        AppStateView {
            services: self.services.insert(
                config.name,
                ServiceStateView::fresh(config.name, now),
            ),
            configs: self.configs.insert(config.name, config),
            history: self.history.insert(config.name, Seq::empty()),
        }
    }

    /// Without a service.
    pub open spec fn removed(self, name: Seq<char>) -> AppStateView {
        AppStateView {
            services: self.services.remove(name),
            configs: self.configs.remove(name),
            history: self.history.remove(name),
        }
    }

    /// With another configuration of a service.
    pub open spec fn reconfigured(self, config: ServiceConfigView) -> AppStateView {
        AppStateView { configs: self.configs.insert(config.name, config), ..self }
    }

    /// The status changes of a service that are kept, the newest first.
    pub open spec fn changes(self, name: Seq<char>) -> Seq<StateHistoryEntryView> {
        if self.history.contains_key(name) {
            self.history[name].reverse()
        } else {
            Seq::empty()
        }
    }

    /// How many of some services have a status.
    pub open spec fn count_in(self, names: Set<Seq<char>>, status: ServiceStatus) -> nat {
        names.filter(|name: Seq<char>| self.services[name].status == status).len()
    }

    /// How many services have a status.
    pub open spec fn count(self, status: ServiceStatus) -> nat {
        self.count_in(self.services.dom(), status)
    }

    /// None of no services has a status.
    pub proof fn lemma_count_none(self)
        ensures
            forall|status: ServiceStatus| #[trigger] self.count_in(Set::empty(), status) == 0,
    {
        assert forall|status: ServiceStatus| #[trigger] self.count_in(Set::empty(), status) == 0 by {
            assert(Set::<Seq<char>>::empty().filter(
                |name: Seq<char>| self.services[name].status == status,
            ) =~= Set::empty());
        }
    }

    /// One more service adds one to the count of its status.
    pub proof fn lemma_count_more(self, names: Set<Seq<char>>, name: Seq<char>)
        requires
            names.finite(),
            !names.contains(name),
        ensures
            forall|status: ServiceStatus| #[trigger]
                self.count_in(names.insert(name), status) == self.count_in(names, status) + if status
                    == self.services[name].status {
                    1nat
                } else {
                    0nat
                },
    {
        assert forall|status: ServiceStatus| #[trigger]
            self.count_in(names.insert(name), status) == self.count_in(names, status) + if status
                == self.services[name].status {
                1nat
            } else {
                0nat
            } by {
            let has = |name: Seq<char>| self.services[name].status == status;
            let before = names.filter(has);
            names.lemma_len_filter(has);
            if has(name) {
                assert(names.insert(name).filter(has) =~= before.insert(name));
            } else {
                assert(names.insert(name).filter(has) =~= before);
            }
        }
    }
}

} // verus!
