//! What holds of alerts whatever happens to the services.

use crate::alert;
use crate::alert::{Alert, AlertEvent, AlertManagerView};
use crate::clock;
use crate::clock::Timestamp;
use crate::config::WebhookConfigView;
use crate::models;
use crate::models::{ServiceStateView, ServiceStatus};
use vstd::prelude::*;

verus! {

impl AlertManagerView {
    /// Whether what was noted fits together: an alert is open for exactly the services that
    /// were last told to be in trouble, and of each service about which something was told it
    /// is known when.
    pub open spec fn consistent(self) -> bool {
        &&& forall|name: Seq<char>| #[trigger]
            self.alerting_services.contains(name) <==> self.last_alert_status.contains_key(name)
                && self.last_alert_status[name].troubled()
        &&& forall|name: Seq<char>| #[trigger]
            self.last_alert_status.contains_key(name) <==> self.last_alert_time.contains_key(name)
    }

    /// What is noted after the alert that is due at `now`, if any.
    pub open spec fn followed(
        self,
        name: Seq<char>,
        state: ServiceStateView,
        secs: u64,
        now: Timestamp,
        later: Timestamp,
    ) -> AlertManagerView {
        self.noted(name, self.due(name, state, secs, now), now, later)
    }
}

/// What was noted fits together at the start, after each look at a service, and with other
/// webhooks.
pub proof fn law_alerts_consistent(
    alerts: AlertManagerView,
    name: Seq<char>,
    state: ServiceStateView,
    secs: u64,
    now: Timestamp,
    later: Timestamp,
    webhooks: Seq<WebhookConfigView>,
)
    requires
        alerts.consistent(),
    ensures
        (AlertManagerView {
            webhooks,
            last_alert_time: Map::empty(),
            last_alert_status: Map::empty(),
            alerting_services: Set::empty(),
        }).consistent(),
        alerts.followed(name, state, secs, now, later).consistent(),
        (AlertManagerView { webhooks, ..alerts }).consistent(),
{
}

/// After it was told that a service is unavailable, this is not told again until the same
/// number of seconds has passed, whatever state the service is in.
pub proof fn law_unavailable_waits(
    alerts: AlertManagerView,
    name: Seq<char>,
    state: ServiceStateView,
    secs: u64,
    now: Timestamp,
    later: Timestamp,
    next_state: ServiceStateView,
    next: Timestamp,
)
    requires
        alerts.due(name, state, secs, now) == Some(AlertEvent::Unavailable),
        next.instant() - now.instant() < clock::as_signed(secs) * 1_000_000_000,
    ensures
        alerts.followed(name, state, secs, now, later).due(name, next_state, secs, next) != Some(
            AlertEvent::Unavailable,
        ),
{
}

/// After it was told that a service is unavailable, this is told again once the same number of
/// seconds has passed and the service is still unhealthy.
pub proof fn law_unavailable_is_told_again(
    alerts: AlertManagerView,
    name: Seq<char>,
    state: ServiceStateView,
    secs: u64,
    now: Timestamp,
    later: Timestamp,
    next: Timestamp,
)
    requires
        alerts.due(name, state, secs, now) == Some(AlertEvent::Unavailable),
        next.instant() >= now.instant(),
        next.instant() - now.instant() >= clock::as_signed(secs) * 1_000_000_000,
    ensures
        alerts.followed(name, state, secs, now, later).due(name, state, secs, next) == Some(
            AlertEvent::Unavailable,
        ),
{
    let since = state.status_since.instant();
    lemma_more_seconds(now.instant() - since, next.instant() - since);
}

/// A longer time has at least as many whole seconds.
proof fn lemma_more_seconds(short: int, long: int)
    requires
        short <= long,
    ensures
        clock::whole_secs(short) <= clock::whole_secs(long),
{
}

/// That a service is degraded is told only after it was told to be unavailable, and once only:
/// as long as it stays degraded nothing more is told.
pub proof fn law_degraded_is_told_once(
    alerts: AlertManagerView,
    name: Seq<char>,
    state: ServiceStateView,
    secs: u64,
    now: Timestamp,
    later: Timestamp,
    next_state: ServiceStateView,
    next: Timestamp,
)
    requires
        alerts.due(name, state, secs, now) == Some(AlertEvent::Degraded),
        next_state.status is Degraded,
    ensures
        alerts.last_alert_status[name] is Unhealthy,
        alerts.followed(name, state, secs, now, later).due(name, next_state, secs, next) is None,
{
}

/// That a service has recovered is told only where an alert was open, and closes it: until the
/// service is unhealthy again nothing more is told.
pub proof fn law_recovered_is_told_once(
    alerts: AlertManagerView,
    name: Seq<char>,
    state: ServiceStateView,
    secs: u64,
    now: Timestamp,
    later: Timestamp,
    next_state: ServiceStateView,
    next: Timestamp,
)
    requires
        alerts.due(name, state, secs, now) == Some(AlertEvent::Recovered),
        !(next_state.status is Unhealthy),
    ensures
        alerts.alerting_services.contains(name),
        alerts.followed(name, state, secs, now, later).due(name, next_state, secs, next) is None,
{
}

/// Of a service with an open alert it is told that it has recovered as soon as it is healthy.
pub proof fn law_recovery_is_told(
    alerts: AlertManagerView,
    name: Seq<char>,
    state: ServiceStateView,
    secs: u64,
    now: Timestamp,
)
    requires
        alerts.alerting_services.contains(name),
        state.status is Healthy,
    ensures
        alerts.due(name, state, secs, now) == Some(AlertEvent::Recovered),
{
}

/// Of a service without an open alert nothing is told but that it is unavailable, and that only
/// while it is unhealthy.
pub proof fn law_first_alert_is_unavailable(
    alerts: AlertManagerView,
    name: Seq<char>,
    state: ServiceStateView,
    secs: u64,
    now: Timestamp,
)
    requires
        !alerts.alerting_services.contains(name),
        alerts.due(name, state, secs, now) is Some,
    ensures
        alerts.due(name, state, secs, now) == Some(AlertEvent::Unavailable),
        state.status is Unhealthy,
{
}

/// An unhealthy service about which nothing was told yet is told to be unavailable exactly from
/// the time on that it has been unhealthy for so many seconds.
pub proof fn law_unavailable_is_told_in_time(
    alerts: AlertManagerView,
    name: Seq<char>,
    state: ServiceStateView,
    secs: u64,
    now: Timestamp,
)
    requires
        state.status is Unhealthy,
        !alerts.last_alert_time.contains_key(name),
        clock::as_signed(secs) > 0 || now.instant() >= state.status_since.instant(),
    ensures
        alerts.due(name, state, secs, now) is Some <==> now.instant()
            - state.status_since.instant() >= clock::as_signed(secs) * 1_000_000_000,
{
}

/// What is told about one service has no bearing on any other.
pub proof fn law_other_alerts_stay(
    alerts: AlertManagerView,
    name: Seq<char>,
    state: ServiceStateView,
    secs: u64,
    now: Timestamp,
    later: Timestamp,
    other: Seq<char>,
    other_state: ServiceStateView,
    other_secs: u64,
    next: Timestamp,
)
    requires
        other != name,
    ensures
        alerts.followed(name, state, secs, now, later).due(other, other_state, other_secs, next)
            == alerts.due(other, other_state, other_secs, next),
{
}

/// Other webhooks do not change which alerts are due.
pub proof fn law_webhooks_do_not_decide(
    alerts: AlertManagerView,
    webhooks: Seq<WebhookConfigView>,
    name: Seq<char>,
    state: ServiceStateView,
    secs: u64,
    now: Timestamp,
)
    ensures
        (AlertManagerView { webhooks, ..alerts }).due(name, state, secs, now) == alerts.due(
            name,
            state,
            secs,
            now,
        ),
{
}

/// An alert about an unhealthy service goes to all webhooks.
pub proof fn law_critical_goes_everywhere(webhooks: Seq<WebhookConfigView>)
    ensures
        alert::recipients(webhooks, ServiceStatus::Unhealthy) == webhooks.map_values(
            |webhook: WebhookConfigView| webhook.url,
        ),
{
    let all = |webhook: WebhookConfigView| alert::receives(webhook, ServiceStatus::Unhealthy);
    lemma_filter_keeps(webhooks, all);
}

/// A filter that takes everything changes nothing.
proof fn lemma_filter_keeps<A>(items: Seq<A>, wanted: spec_fn(A) -> bool)
    requires
        forall|i: int| 0 <= i < items.len() ==> wanted(#[trigger] items[i]),
    ensures
        items.filter(wanted) == items,
    decreases items.len(),
{
    reveal(Seq::filter);
    if items.len() > 0 {
        let earlier = items.drop_last();
        assert(forall|i: int| 0 <= i < earlier.len() ==> #[trigger] earlier[i] == items[i]);
        lemma_filter_keeps(earlier, wanted);
        assert(earlier.push(items.last()) =~= items);
    }
}

/// When an alert is due. An unhealthy service is told to be unavailable once it has been so for as
/// many whole seconds as are to be waited, and, where something was told of it before, once as
/// many seconds have passed since then, whether or not an alert is still open. A degraded one is
/// told where an alert is open and the last thing told was that it is unavailable, a healthy
/// one where an alert is open, and an unknown one never. Seconds beyond the signed numbers of 64
/// bits count as negative.
pub proof fn law_when_alerts_are_due(
    alerts: AlertManagerView,
    name: Seq<char>,
    state: ServiceStateView,
    secs: u64,
    now: Timestamp,
)
    ensures
        ({
            let due = alerts.due(name, state, secs, now);
            let wait: int = if secs <= 0x7fff_ffff_ffff_ffff {
                secs as int
            } else {
                secs - 0x1_0000_0000_0000_0000
            };
            let since = now.instant() - state.status_since.instant();
            let long_enough = if wait > 0 {
                since >= wait * 1_000_000_000
            } else {
                since > (wait - 1) * 1_000_000_000
            };
            let rested = !alerts.last_alert_time.contains_key(name) || now.instant()
                - alerts.last_alert_time[name].instant() >= wait * 1_000_000_000;
            &&& due == Some(AlertEvent::Unavailable) <==> state.status == ServiceStatus::Unhealthy
                && long_enough && rested
            &&& due == Some(AlertEvent::Degraded) <==> {
                &&& state.status == ServiceStatus::Degraded
                &&& alerts.alerting_services.contains(name)
                &&& alerts.last_alert_status.contains_key(name)
                &&& alerts.last_alert_status[name] == ServiceStatus::Unhealthy
            }
            &&& due == Some(AlertEvent::Recovered) <==> state.status == ServiceStatus::Healthy
                && alerts.alerting_services.contains(name)
        }),
{
}

/// What is noted of a service after a look at it. That it is unavailable is noted with the time
/// of the look, and opens an alert. That it is degraded is noted with the time at which it was
/// on its way, and leaves the alert open. That it has recovered closes the alert, and leaves the
/// noted time alone. Where nothing is told, nothing is noted. Of other services, and of the
/// webhooks, nothing changes.
pub proof fn law_what_is_noted(
    alerts: AlertManagerView,
    name: Seq<char>,
    event: Option<AlertEvent>,
    now: Timestamp,
    later: Timestamp,
    other: Seq<char>,
)
    ensures
        ({
            let after = alerts.noted(name, event, now, later);
            &&& after.webhooks == alerts.webhooks
            &&& event is None ==> after == alerts
            &&& event == Some(AlertEvent::Unavailable) ==> {
                &&& after.last_alert_time.contains_key(name)
                &&& after.last_alert_time[name] == now
                &&& after.last_alert_status.contains_key(name)
                &&& after.last_alert_status[name] == ServiceStatus::Unhealthy
                &&& after.alerting_services.contains(name)
            }
            &&& event == Some(AlertEvent::Degraded) ==> {
                &&& after.last_alert_time.contains_key(name)
                &&& after.last_alert_time[name] == later
                &&& after.last_alert_status.contains_key(name)
                &&& after.last_alert_status[name] == ServiceStatus::Degraded
                &&& after.alerting_services.contains(name) == alerts.alerting_services.contains(
                    name,
                )
            }
            &&& event == Some(AlertEvent::Recovered) ==> {
                &&& after.last_alert_time == alerts.last_alert_time
                &&& after.last_alert_status.contains_key(name)
                &&& after.last_alert_status[name] == ServiceStatus::Healthy
                &&& !after.alerting_services.contains(name)
            }
            &&& other != name ==> {
                &&& after.last_alert_time.contains_key(other)
                    == alerts.last_alert_time.contains_key(other)
                &&& after.last_alert_time[other] == alerts.last_alert_time[other]
                &&& after.last_alert_status.contains_key(other)
                    == alerts.last_alert_status.contains_key(other)
                &&& after.last_alert_status[other] == alerts.last_alert_status[other]
                &&& after.alerting_services.contains(other) == alerts.alerting_services.contains(
                    other,
                )
            }
        }),
{
}

/// A look at a service sends an alert exactly where one is due, and notes that one. The alert
/// names the service, its status, the event in its own words, the time at which it was sent, and
/// the last success and error of the service.
pub proof fn law_alert_tells_what_is_due(
    alerts: AlertManagerView,
    name: Seq<char>,
    state: ServiceStateView,
    secs: u64,
    times: (Timestamp, Timestamp, Timestamp),
    sent: Option<Alert>,
    after: AlertManagerView,
)
    requires
        alerts.handled(name, state, secs, times, sent, after),
    ensures
        sent is Some <==> alerts.due(name, state, secs, times.0) is Some,
        after == alerts.noted(name, alerts.due(name, state, secs, times.0), times.0, times.2),
        sent matches Some(sent) ==> {
            &&& sent.message.service@ == name
            &&& sent.message.status == state.status
            &&& state.status == ServiceStatus::Unhealthy ==> sent.message.event@ == "服务不可用"@
            &&& state.status == ServiceStatus::Degraded ==> sent.message.event@
                == "服务降级为亚健康"@
            &&& state.status == ServiceStatus::Healthy ==> sent.message.event@ == "服务已恢复"@
            &&& sent.message.timestamp == times.1
            &&& sent.message.last_success == state.last_success
            &&& sent.message.error is Some <==> state.last_error is Some
            &&& sent.message.error is Some ==> sent.message.error->0@ == state.last_error->0
            &&& models::texts(sent.urls@) == alert::recipients(alerts.webhooks, state.status)
        },
{
}

/// Whatever is sent about an event of a service, it names the service, its status, the event in
/// its own words, the time, and the last success and error of the service.
pub proof fn law_alert_words(
    sent: Alert,
    webhooks: Seq<WebhookConfigView>,
    name: Seq<char>,
    state: ServiceStateView,
    event: AlertEvent,
    at: Timestamp,
)
    requires
        sent.tells(webhooks, name, state, event, at),
    ensures
        sent.message.service@ == name,
        sent.message.status == state.status,
        event == AlertEvent::Unavailable ==> sent.message.event@ == "服务不可用"@,
        event == AlertEvent::Degraded ==> sent.message.event@ == "服务降级为亚健康"@,
        event == AlertEvent::Recovered ==> sent.message.event@ == "服务已恢复"@,
        sent.message.timestamp == at,
        sent.message.last_success == state.last_success,
        sent.message.error is Some <==> state.last_error is Some,
        sent.message.error is Some ==> sent.message.error->0@ == state.last_error->0,
        models::texts(sent.urls@) == alert::recipients(webhooks, state.status),
{
}

/// Each event has its own words.
pub proof fn law_event_words()
    ensures
        AlertEvent::Unavailable.text() == "服务不可用"@,
        AlertEvent::Degraded.text() == "服务降级为亚健康"@,
        AlertEvent::Recovered.text() == "服务已恢复"@,
{
}

/// After a recovery was told, a new outage is told like the first one: once it has lasted as long
/// as is to be waited, and as much time has passed since the last alert that was noted.
pub proof fn law_new_outage_is_told(
    alerts: AlertManagerView,
    name: Seq<char>,
    well: ServiceStateView,
    secs: u64,
    recovered: (Timestamp, Timestamp, Timestamp),
    first: Option<Alert>,
    between: AlertManagerView,
    ill: ServiceStateView,
    times: (Timestamp, Timestamp, Timestamp),
    second: Option<Alert>,
    after: AlertManagerView,
)
    requires
        alerts.alerting_services.contains(name),
        well.status == ServiceStatus::Healthy,
        alerts.handled(name, well, secs, recovered, first, between),
        ill.status == ServiceStatus::Unhealthy,
        secs <= 0x7fff_ffff_ffff_ffff,
        times.0.instant() - ill.status_since.instant() >= secs * 1_000_000_000,
        alerts.last_alert_time.contains_key(name) ==> times.0.instant()
            - alerts.last_alert_time[name].instant() >= secs * 1_000_000_000,
        between.handled(name, ill, secs, times, second, after),
    ensures
        first is Some,
        first->0.message.event@ == "服务已恢复"@,
        !between.alerting_services.contains(name),
        second is Some,
        second->0.message.event@ == "服务不可用"@,
        second->0.message.service@ == name,
        after.alerting_services.contains(name),
        after.last_alert_time.contains_key(name),
        after.last_alert_time[name] == times.0,
{
}

/// To which webhooks an alert goes: one more webhook gets it, behind the others, where the
/// service is unhealthy, where it is degraded and the webhook is for warnings, or where it is
/// neither and the webhook is for information. Without webhooks it goes nowhere.
pub proof fn law_who_is_told(
    webhooks: Seq<WebhookConfigView>,
    webhook: WebhookConfigView,
    status: ServiceStatus,
)
    ensures
        alert::recipients(Seq::empty(), status).len() == 0,
        alert::recipients(webhooks.push(webhook), status) == if {
            ||| status == ServiceStatus::Unhealthy
            ||| status == ServiceStatus::Degraded && webhook.level == "warn"@
            ||| status == ServiceStatus::Healthy && webhook.level == "info"@
            ||| status == ServiceStatus::Unknown && webhook.level == "info"@
        } {
            alert::recipients(webhooks, status).push(webhook.url)
        } else {
            alert::recipients(webhooks, status)
        },
{
    reveal(Seq::filter);
    let more = webhooks.push(webhook);
    assert(more.drop_last() =~= webhooks);
    let wanted = |webhook: WebhookConfigView| alert::receives(webhook, status);
    let url = |webhook: WebhookConfigView| webhook.url;
    if wanted(webhook) {
        assert(more.filter(wanted) =~= webhooks.filter(wanted).push(webhook));
        assert(alert::recipients(more, status) =~= alert::recipients(webhooks, status).push(
            webhook.url,
        ));
    } else {
        assert(alert::recipients(more, status) =~= alert::recipients(webhooks, status));
    }
}

/// A look at a service can always be taken, but where it is unhealthy, something was told of it,
/// and the seconds to be waited are below what a time span can be made of.
pub proof fn law_looks_can_be_taken(
    alerts: AlertManagerView,
    name: Seq<char>,
    state: ServiceStateView,
    secs: u64,
)
    ensures
        alerts.measurable(name, state, secs) <==> {
            ||| state.status != ServiceStatus::Unhealthy
            ||| !alerts.last_alert_time.contains_key(name)
            ||| secs <= 0x7fff_ffff_ffff_ffff
            ||| secs - 0x1_0000_0000_0000_0000 >= -9_223_372_036_854_775
        },
{
}

} // verus!
