//! Which alerts are due, and where they go.

use crate::clock;
use crate::clock::Timestamp;
use crate::config::{AlertConfig, WebhookConfigView};
use crate::models;
use crate::models::{ServiceState, ServiceStateView, ServiceStatus};
use crate::names::NameMap;
use vstd::hash_set::StringHashSet;
use vstd::prelude::*;

verus! {

/// What an alert is about.
#[derive(Debug, Clone, Copy, PartialEq, Eq, Structural)]
pub enum AlertEvent {
    Unavailable,
    Degraded,
    Recovered,
}

impl AlertEvent {
    /// The words for the event.
    pub open spec fn text(self) -> Seq<char> {
        match self {
            AlertEvent::Unavailable => "服务不可用"@,
            AlertEvent::Degraded => "服务降级为亚健康"@,
            AlertEvent::Recovered => "服务已恢复"@,
        }
    }

    /// The words for the event.
    pub fn to_string(&self) -> (text: String)
        ensures
            text@ == self.text(),
    {
        match self {
            AlertEvent::Unavailable => "服务不可用".to_owned(),
            AlertEvent::Degraded => "服务降级为亚健康".to_owned(),
            AlertEvent::Recovered => "服务已恢复".to_owned(),
        }
    }
}

/// The level of an alert about a service with a status.
pub open spec fn level(status: ServiceStatus) -> Seq<char> {
    match status {
        ServiceStatus::Unhealthy => "critical"@,
        ServiceStatus::Degraded => "warn"@,
        _ => "info"@,
    }
}

/// Whether an alert goes to a webhook: one about an unhealthy service goes to all of them,
/// another one to those that are meant for its level.
pub open spec fn receives(webhook: WebhookConfigView, status: ServiceStatus) -> bool {
    webhook.level == level(status) || status is Unhealthy
}

/// Where an alert about a service with a status goes.
pub open spec fn recipients(
    webhooks: Seq<WebhookConfigView>,
    status: ServiceStatus,
) -> Seq<Seq<char>> {
    webhooks.filter(|webhook: WebhookConfigView| receives(webhook, status)).map_values(
        |webhook: WebhookConfigView| webhook.url,
    )
}

/// What an alert says.
#[derive(Debug)]
pub struct AlertMessage {
    pub service: String,
    pub status: ServiceStatus,
    pub event: String,
    pub timestamp: Timestamp,
    pub last_success: Option<Timestamp>,
    pub error: Option<String>,
}

/// An alert, and where it goes.
#[derive(Debug)]
pub struct Alert {
    pub message: AlertMessage,
    pub urls: Vec<String>,
}

impl Alert {
    /// Whether this is the alert about an event of a service, sent at `sent`.
    pub open spec fn tells(
        self,
        webhooks: Seq<WebhookConfigView>,
        name: Seq<char>,
        state: ServiceStateView,
        event: AlertEvent,
        sent: Timestamp,
    ) -> bool {
        &&& self.message.service@ == name
        &&& self.message.status == state.status
        &&& self.message.event@ == event.text()
        &&& self.message.timestamp == sent
        &&& self.message.last_success == state.last_success
        &&& models::optional_text(self.message.error) == state.last_error
        &&& models::texts(self.urls@) == recipients(webhooks, state.status)
    }
}

/// Which alerts went out.
pub struct AlertManager {
    config: AlertConfig,
    last_alert_time: NameMap<Timestamp>,
    last_alert_status: NameMap<ServiceStatus>,
    alerting_services: StringHashSet,
}

/// Which alerts went out, in mathematical terms.
pub struct AlertManagerView {
    pub webhooks: Seq<WebhookConfigView>,
    pub last_alert_time: Map<Seq<char>, Timestamp>,
    pub last_alert_status: Map<Seq<char>, ServiceStatus>,
    pub alerting_services: Set<Seq<char>>,
}

impl View for AlertManager {
    type V = AlertManagerView;

    closed spec fn view(&self) -> AlertManagerView {
        AlertManagerView {
            webhooks: self.config@,
            last_alert_time: self.last_alert_time@,
            last_alert_status: self.last_alert_status@,
            alerting_services: self.alerting_services@,
        }
    }
}

/// Whether a service has had its status for so many whole seconds.
pub open spec fn lasts(state: ServiceStateView, secs: u64, now: Timestamp) -> bool {
    clock::whole_secs(now.instant() - state.status_since.instant()) >= clock::as_signed(secs)
}

impl AlertManagerView {
    /// Whether so many seconds have passed since the last alert about a service.
    pub open spec fn rested(self, name: Seq<char>, secs: u64, now: Timestamp) -> bool {
        self.last_alert_time.contains_key(name) ==> now.instant()
            - self.last_alert_time[name].instant() >= clock::as_signed(secs) * 1_000_000_000
    }

    /// The alert that is due at `now`, if any. That a service is unavailable is told once it
    /// has lasted, and again each time that as many seconds have passed. That it is degraded
    /// is told once after that, and that it has recovered too.
    pub open spec fn due(
        self,
        name: Seq<char>,
        state: ServiceStateView,
        secs: u64,
        now: Timestamp,
    ) -> Option<AlertEvent> {
        match state.status {
            ServiceStatus::Unhealthy if lasts(state, secs, now) && self.rested(
                name,
                secs,
                now,
            ) => Some(AlertEvent::Unavailable),
            ServiceStatus::Degraded if self.alerting_services.contains(name)
                && self.last_alert_status.contains_key(name)
                && self.last_alert_status[name] is Unhealthy => Some(AlertEvent::Degraded),
            ServiceStatus::Healthy if self.alerting_services.contains(name) => Some(
                AlertEvent::Recovered,
            ),
            _ => None,
        }
    }

    /// With an alert noted that was found due at `now` and was on its way at `later`.
    pub open spec fn noted(
        self,
        name: Seq<char>,
        event: Option<AlertEvent>,
        now: Timestamp,
        later: Timestamp,
    ) -> AlertManagerView {
        match event {
            Some(AlertEvent::Unavailable) => AlertManagerView {
                last_alert_time: self.last_alert_time.insert(name, now),
                last_alert_status: self.last_alert_status.insert(name, ServiceStatus::Unhealthy),
                alerting_services: self.alerting_services.insert(name),
                ..self
            },
            Some(AlertEvent::Degraded) => AlertManagerView {
                last_alert_time: self.last_alert_time.insert(name, later),
                last_alert_status: self.last_alert_status.insert(name, ServiceStatus::Degraded),
                ..self
            },
            Some(AlertEvent::Recovered) => AlertManagerView {
                last_alert_status: self.last_alert_status.insert(name, ServiceStatus::Healthy),
                alerting_services: self.alerting_services.remove(name),
                ..self
            },
            None => self,
        }
    }

    /// Whether `alert` is what goes out for a service, and `after` is what is noted then. Of
    /// the times, the first is when the alert was found due, the second stands in its
    /// message, and the third is when it was on its way.
    pub open spec fn handled(
        self,
        name: Seq<char>,
        state: ServiceStateView,
        secs: u64,
        times: (Timestamp, Timestamp, Timestamp),
        alert: Option<Alert>,
        after: AlertManagerView,
    ) -> bool {
        let event = self.due(name, state, secs, times.0);
        &&& after == self.noted(name, event, times.0, times.2)
        &&& match alert {
            Some(alert) => event is Some && alert.tells(
                self.webhooks,
                name,
                state,
                event->0,
                times.1,
            ),
            None => event is None,
        }
    }

    /// Whether the seconds to wait between two alerts about an unavailable service make a
    /// time span, where they are needed.
    pub open spec fn measurable(self, name: Seq<char>, state: ServiceStateView, secs: u64) -> bool {
        state.status is Unhealthy && self.last_alert_time.contains_key(name)
            ==> clock::as_signed(secs) >= -clock::MAX_SPAN_SECS
    }
}

impl AlertManager {
    /// A manager that has sent nothing yet.
    pub fn new(config: AlertConfig) -> (manager: Self)
        ensures
            manager@.webhooks == config@,
            manager@.last_alert_time == Map::<Seq<char>, Timestamp>::empty(),
            manager@.last_alert_status == Map::<Seq<char>, ServiceStatus>::empty(),
            manager@.alerting_services == Set::<Seq<char>>::empty(),
    {
        AlertManager {
            config,
            last_alert_time: NameMap::new(),
            last_alert_status: NameMap::new(),
            alerting_services: StringHashSet::new(),
        }
    }

    /// Sends alerts to other places from now on.
    pub fn update_config(&mut self, config: AlertConfig)
        ensures
            final(self)@ == (AlertManagerView { webhooks: config@, ..old(self)@ }),
    {
        self.config = config;
    }

    /// Whether there is no place that alerts could go to.
    pub fn has_no_webhooks(&self) -> (none: bool)
        ensures
            none == (self@.webhooks.len() == 0),
    {
        self.config.webhooks.is_empty()
    }

    /// Whether there was an alert about a service, after which the next one has to wait.
    pub fn has_to_wait(&self, service_name: &str) -> (waits: bool)
        ensures
            waits == self@.last_alert_time.contains_key(service_name@),
    {
        self.last_alert_time.contains_key(service_name)
    }

    /// Finds out which alert about a service is due at the current time, and takes it as sent.
    /// Hands back the alert and where it has to go.
    pub fn check_and_send_alerts(
        &mut self,
        service_name: &str,
        state: &ServiceState,
        alert_after_secs: u64,
    ) -> (alert: Option<Alert>)
        requires
            old(self)@.measurable(service_name@, state@, alert_after_secs),
        ensures
            exists|now: Timestamp, sent: Timestamp, later: Timestamp|
                {
                    &&& now.shown()
                    &&& sent.shown()
                    &&& later.shown()
                    &&& #[trigger] old(self)@.handled(
                        service_name@,
                        state@,
                        alert_after_secs,
                        (now, sent, later),
                        alert,
                        final(self)@,
                    )
                },
    {
        let now = clock::utc_now();
        let sent = clock::utc_now();
        let later = clock::utc_now();
        self.check_and_send_alerts_at(service_name, state, alert_after_secs, now, sent, later)
    }

    /// Finds out which alert about a service is due at `now`, and takes it as sent. The message
    /// carries the time `sent`. That a service is degraded counts as told at `later`. Hands
    /// back the alert and where it has to go.
    pub fn check_and_send_alerts_at(
        &mut self,
        service_name: &str,
        state: &ServiceState,
        alert_after_secs: u64,
        now: Timestamp,
        sent: Timestamp,
        later: Timestamp,
    ) -> (alert: Option<Alert>)
        requires
            old(self)@.measurable(service_name@, state@, alert_after_secs),
        ensures
            old(self)@.handled(
                service_name@,
                state@,
                alert_after_secs,
                (now, sent, later),
                alert,
                final(self)@,
            ),
    {
        match self.due_alert(service_name, state, alert_after_secs, now) {
            Some(event) => {
                let alert = self.send_alert(service_name, state, event, sent);
                match event {
                    AlertEvent::Unavailable => {
                        self.last_alert_time.insert(service_name.to_owned(), now);
                        self.last_alert_status.insert(
                            service_name.to_owned(),
                            ServiceStatus::Unhealthy,
                        );
                        self.alerting_services.insert(service_name.to_owned());
                    },
                    AlertEvent::Degraded => {
                        self.last_alert_time.insert(service_name.to_owned(), later);
                        self.last_alert_status.insert(
                            service_name.to_owned(),
                            ServiceStatus::Degraded,
                        );
                    },
                    AlertEvent::Recovered => {
                        self.alerting_services.remove(service_name);
                        self.last_alert_status.insert(
                            service_name.to_owned(),
                            ServiceStatus::Healthy,
                        );
                    },
                }
                Some(alert)
            },
            None => None,
        }
    }

    /// The alert about a service that is due at `now`, if any.
    fn due_alert(
        &self,
        service_name: &str,
        state: &ServiceState,
        alert_after_secs: u64,
        now: Timestamp,
    ) -> (event: Option<AlertEvent>)
        requires
            self@.measurable(service_name@, state@, alert_after_secs),
        ensures
            event == self@.due(service_name@, state@, alert_after_secs, now),
    {
        match state.status {
            ServiceStatus::Unhealthy => {
                let since = state.status_since;
                proof {
                    use_type_invariant(&now);
                    use_type_invariant(&since);
                }
                let wait = clock::signed_secs(alert_after_secs);
                let duration = clock::time_between(since, now);
                proof {
                    clock::lemma_whole_secs(duration);
                    clock::lemma_between(since, now);
                }
                if duration.secs < wait {
                    return None;
                }
                match self.last_alert_time.get(service_name) {
                    Some(last) => {
                        let last = *last;
                        proof {
                            use_type_invariant(&last);
                        }
                        let cooldown = clock::seconds(wait);
                        if cooldown.exceeds(&clock::time_between(last, now)) {
                            None
                        } else {
                            Some(AlertEvent::Unavailable)
                        }
                    },
                    None => Some(AlertEvent::Unavailable),
                }
            },
            ServiceStatus::Degraded => {
                if self.alerting_services.contains(service_name) {
                    match self.last_alert_status.get(service_name) {
                        Some(ServiceStatus::Unhealthy) => Some(AlertEvent::Degraded),
                        _ => None,
                    }
                } else {
                    None
                }
            },
            ServiceStatus::Healthy => {
                if self.alerting_services.contains(service_name) {
                    Some(AlertEvent::Recovered)
                } else {
                    None
                }
            },
            ServiceStatus::Unknown => None,
        }
    }

    /// The alert about an event of a service, and where it has to go.
    pub fn send_alert(
        &self,
        service_name: &str,
        state: &ServiceState,
        event: AlertEvent,
        sent: Timestamp,
    ) -> (alert: Alert)
        ensures
            alert.tells(self@.webhooks, service_name@, state@, event, sent),
    {
        let message = AlertMessage {
            service: service_name.to_owned(),
            status: state.status,
            event: event.to_string(),
            timestamp: sent,
            last_success: state.last_success,
            error: state.last_error.clone(),
        };
        let (level, critical) = match state.status {
            ServiceStatus::Unhealthy => ("critical".to_owned(), true),
            ServiceStatus::Degraded => ("warn".to_owned(), false),
            _ => ("info".to_owned(), false),
        };
        let ghost webhooks = self.config@;
        let ghost wanted = |webhook: WebhookConfigView| receives(webhook, state.status);
        let mut urls: Vec<String> = Vec::new();
        proof {
            reveal(Seq::filter);
            assert(models::texts(urls@) =~= recipients(webhooks.take(0), state.status));
        }
        for i in 0..self.config.webhooks.len()
            invariant
                webhooks == self.config@,
                level@ == self::level(state.status),
                critical == (state.status is Unhealthy),
                wanted == |webhook: WebhookConfigView| receives(webhook, state.status),
                models::texts(urls@) == recipients(webhooks.take(i as int), state.status),
        {
            let webhook = &self.config.webhooks[i];
            let ghost before = models::texts(urls@);
            proof {
                let shown = webhooks.take(i + 1);
                assert(shown.drop_last() =~= webhooks.take(i as int));
                assert(shown.last() == webhook@);
                reveal(Seq::filter);
            }
            if webhook.level == level || critical {
                urls.push(webhook.url.clone());
                assert(models::texts(urls@) =~= before.push(webhook.url@));
            }
            assert(models::texts(urls@) =~= recipients(webhooks.take(i + 1), state.status));
        }
        assert(webhooks.take(webhooks.len() as int) =~= webhooks);
        Alert { message, urls }
    }
}

} // verus!
