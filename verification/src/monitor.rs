//! How the monitor starts, takes a new configuration, and runs a check.

use crate::alert::{Alert, AlertManager, AlertManagerView};
use crate::checker::CheckResult;
use crate::clock;
use crate::clock::Timestamp;
use crate::config::{AppConfig, ServerConfig};
use crate::dependency::DependencyGraph;
use crate::models;
use crate::models::{ServiceConfig, ServiceConfigView, ServiceStatus};
use crate::registry::AppStateView;
use crate::state::{next_status, AppState};
use crate::text;
use crate::walk::Graph;
use vstd::hash_set::StringHashSet;
use vstd::prelude::*;

verus! {

/// What is configured for some services.
pub open spec fn settings(configs: Seq<ServiceConfig>) -> Seq<ServiceConfigView> {
    configs.map_values(|config: ServiceConfig| config@)
}

/// Whether some services include one of this name.
pub open spec fn names_service(configs: Seq<ServiceConfigView>, name: Seq<char>) -> bool {
    exists|i: int| 0 <= i < configs.len() && #[trigger] configs[i].name == name
}

impl Graph {
    /// With what some services depend on.
    pub open spec fn registered(self, configs: Seq<ServiceConfigView>) -> Graph
        decreases configs.len(),
    {
        if configs.len() == 0 {
            self
        } else {
            let before = self.registered(configs.drop_last());
            Graph {
                nodes: before.nodes.insert(configs.last().name, configs.last().dependencies),
                ..before
            }
        }
    }

    /// With the new status of a service, if it changed.
    pub open spec fn updated(self, name: Seq<char>, change: Option<ServiceStatus>) -> Graph {
        match change {
            Some(status) => Graph { statuses: self.statuses.insert(name, status), ..self },
            None => self,
        }
    }
}

impl AppStateView {
    /// With the configuration of each of some services, one after the other: one that is in
    /// `known` gets another configuration, any other one is new at its time.
    pub open spec fn configured(
        self,
        configs: Seq<ServiceConfigView>,
        times: Seq<Timestamp>,
        known: Set<Seq<char>>,
    ) -> AppStateView
        decreases configs.len(),
    {
        if configs.len() == 0 {
            self
        } else {
            let before = self.configured(configs.drop_last(), times, known);
            if known.contains(configs.last().name) {
                before.reconfigured(configs.last())
            } else {
                before.added(configs.last(), times[configs.len() - 1])
            }
        }
    }

    /// Without some services.
    pub open spec fn without(self, names: Set<Seq<char>>) -> AppStateView {
        AppStateView {
            services: self.services.remove_keys(names),
            configs: self.configs.remove_keys(names),
            history: self.history.remove_keys(names),
        }
    }

    /// The services that a new configuration does not name.
    pub open spec fn dropped(self, configs: Seq<ServiceConfigView>) -> Set<Seq<char>> {
        self.services.dom().filter(|name: Seq<char>| !names_service(configs, name))
    }

    /// With a new configuration: services that it does not name are gone, those that it names
    /// and that were there keep their state, the others are new.
    pub open spec fn reloaded(
        self,
        configs: Seq<ServiceConfigView>,
        times: Seq<Timestamp>,
    ) -> AppStateView {
        self.without(self.dropped(configs)).configured(configs, times, self.services.dom())
    }
}

/// Whether there is a time for each of some services that a clock can show.
pub open spec fn times_for(configs: Seq<ServiceConfigView>, times: Seq<Timestamp>) -> bool {
    &&& times.len() == configs.len()
    &&& forall|i: int| 0 <= i < times.len() ==> (#[trigger] times[i]).shown()
}

/// Takes up all services of a configuration.
pub fn register(state: &mut AppState, graph: &mut DependencyGraph, configs: &Vec<ServiceConfig>)
    ensures
        final(graph)@ == old(graph)@.registered(settings(configs@)),
        exists|times: Seq<Timestamp>|
            {
                &&& times_for(settings(configs@), times)
                &&& final(state)@ == #[trigger] old(state)@.configured(
                    settings(configs@),
                    times,
                    Set::empty(),
                )
            },
{
    let known = StringHashSet::new();
    configure(state, graph, configs, &known);
}

fn configure(
    state: &mut AppState,
    graph: &mut DependencyGraph,
    configs: &Vec<ServiceConfig>,
    known: &StringHashSet,
)
    ensures
        final(graph)@ == old(graph)@.registered(settings(configs@)),
        exists|times: Seq<Timestamp>|
            {
                &&& times_for(settings(configs@), times)
                &&& final(state)@ == #[trigger] old(state)@.configured(
                    settings(configs@),
                    times,
                    known@,
                )
            },
{
    let ghost all = settings(configs@);
    let ghost mut times: Seq<Timestamp> = Seq::empty();
    for i in 0..configs.len()
        invariant
            all == settings(configs@),
            times_for(all.take(i as int), times),
            state@ == old(state)@.configured(all.take(i as int), times, known@),
            graph@ == old(graph)@.registered(all.take(i as int)),
    {
        let ghost earlier = times;
        let now = clock::utc_now();
        let config = configs[i].clone();
        let name = config.name.clone();
        let dependencies = models::copy_texts(&config.dependencies);
        if known.contains(name.as_str()) {
            state.update_service_config(config);
        } else {
            state.add_service_at(config, now);
        }
        graph.add_service(name, dependencies);
        proof {
            times = times.push(now);
            let shown = all.take(i + 1);
            assert(shown.drop_last() =~= all.take(i as int));
            assert(shown.last() == config@);
            lemma_times(old(state)@, all.take(i as int), earlier, times, known@);
        }
    }
    assert(all.take(all.len() as int) =~= all);
}

/// Only as many times count as there are services.
proof fn lemma_times(
    state: AppStateView,
    configs: Seq<ServiceConfigView>,
    times: Seq<Timestamp>,
    more: Seq<Timestamp>,
    known: Set<Seq<char>>,
)
    requires
        configs.len() <= times.len() <= more.len(),
        forall|i: int| 0 <= i < times.len() ==> times[i] == more[i],
    ensures
        state.configured(configs, times, known) == state.configured(configs, more, known),
    decreases configs.len(),
{
    if configs.len() > 0 {
        lemma_times(state, configs.drop_last(), times, more, known);
    }
}

/// The names of a list are those of its first part and the one behind it.
proof fn lemma_one_more(names: Seq<Seq<char>>, i: int)
    requires
        0 <= i < names.len(),
    ensures
        names.take(i + 1).to_set() == names.take(i).to_set().insert(names[i]),
{
    let before = names.take(i);
    let after = names.take(i + 1);
    assert(after[i] == names[i]);
    assert forall|name: Seq<char>| before.contains(name) implies #[trigger] after.contains(name) by {
        let k = choose|k: int| 0 <= k < before.len() && before[k] == name;
        assert(after[k] == name);
    }
    assert forall|name: Seq<char>| #[trigger]
        after.contains(name) && name != names[i] implies before.contains(name) by {
        let k = choose|k: int| 0 <= k < after.len() && after[k] == name;
        assert(before[k] == name);
    }
    assert(after.to_set() =~= before.to_set().insert(names[i]));
}

/// Forgets the services that a new configuration does not name. Hands back the names of all
/// services that were there.
fn forget_dropped(state: &mut AppState, configs: &Vec<ServiceConfig>) -> (known: StringHashSet)
    ensures
        known@ == old(state)@.services.dom(),
        final(state)@ == old(state)@.without(old(state)@.dropped(settings(configs@))),
{
    let ghost all = settings(configs@);
    let mut wanted = StringHashSet::new();
    for i in 0..configs.len()
        invariant
            all == settings(configs@),
            forall|name: Seq<char>| #[trigger]
                wanted@.contains(name) == names_service(all.take(i as int), name),
    {
        let ghost before = wanted@;
        wanted.insert(configs[i].name.clone());
        proof {
            let shown = all.take(i + 1);
            let earlier = all.take(i as int);
            assert(shown[i as int].name == configs@[i as int].name@);
            assert forall|name: Seq<char>| #[trigger]
                wanted@.contains(name) == names_service(shown, name) by {
                if names_service(earlier, name) {
                    let k = choose|k: int|
                        0 <= k < earlier.len() && #[trigger] earlier[k].name == name;
                    assert(shown[k].name == name);
                }
                if names_service(shown, name) {
                    let k = choose|k: int| 0 <= k < shown.len() && #[trigger] shown[k].name == name;
                    if k < i {
                        assert(earlier[k].name == name);
                    }
                }
            }
        }
    }
    assert(all.take(all.len() as int) =~= all);
    let count: usize = state.services.len();
    let ghost order = state.services.names();
    let ghost dropped = state@.dropped(all);
    let mut known = StringHashSet::new();
    let mut gone: Vec<String> = Vec::new();
    proof {
        assert(order.take(0).to_set() =~= Set::empty());
        assert(models::texts(gone@).to_set() =~= Set::empty());
    }
    for i in 0..count
        invariant
            order == state.services.names(),
            count == order.len(),
            order.to_set() == state.services@.dom(),
            state@ == old(state)@,
            dropped == state@.dropped(all),
            forall|name: Seq<char>| #[trigger]
                wanted@.contains(name) == names_service(all, name),
            known@ == order.take(i as int).to_set(),
            models::texts(gone@).to_set() == known@.intersect(dropped),
    {
        let name = state.services.name_at(i);
        let ghost earlier = models::texts(gone@);
        let ghost seen = known@;
        known.insert(name.clone());
        proof {
            lemma_one_more(order, i as int);
            assert(state@.services.contains_key(name@));
        }
        if !wanted.contains(name.as_str()) {
            gone.push(name.clone());
            proof {
                let now_gone = models::texts(gone@);
                assert(now_gone =~= earlier.push(name@));
                assert(now_gone.take(earlier.len() as int) =~= earlier);
                assert(now_gone.take(earlier.len() as int + 1) =~= now_gone);
                lemma_one_more(now_gone, earlier.len() as int);
                assert(now_gone.to_set() =~= known@.intersect(dropped));
            }
        } else {
            assert(models::texts(gone@).to_set() =~= known@.intersect(dropped));
        }
    }
    let ghost names = models::texts(gone@);
    proof {
        assert(order.take(count as int) =~= order);
        assert(known@ =~= old(state)@.services.dom());
        assert(names.to_set() =~= dropped);
        assert(names.take(0).to_set() =~= Set::empty());
        assert(old(state)@.without(Set::empty()) =~= old(state)@);
    }
    for i in 0..gone.len()
        invariant
            names == models::texts(gone@),
            state@ == old(state)@.without(names.take(i as int).to_set()),
    {
        let ghost before = state@;
        state.remove_service(gone[i].as_str());
        proof {
            lemma_one_more(names, i as int);
            assert(state@ =~= old(state)@.without(names.take(i + 1).to_set()));
        }
    }
    assert(names.take(names.len() as int) =~= names);
    known
}

/// Takes a new configuration. The dependency graph keeps services that are gone.
pub fn reload(
    state: &mut AppState,
    graph: &mut DependencyGraph,
    alerts: &mut AlertManager,
    config: &AppConfig,
)
    ensures
        final(graph)@ == old(graph)@.registered(settings(config.services@)),
        final(alerts)@ == (AlertManagerView { webhooks: config.alert@, ..old(alerts)@ }),
        exists|times: Seq<Timestamp>|
            {
                &&& times_for(settings(config.services@), times)
                &&& final(state)@ == #[trigger] old(state)@.reloaded(
                    settings(config.services@),
                    times,
                )
            },
{
    let known = forget_dropped(state, &config.services);
    let ghost kept = state@;
    configure(state, graph, &config.services, &known);
    proof {
        let times = choose|times: Seq<Timestamp>|
            {
                &&& times_for(settings(config.services@), times)
                &&& state@ == #[trigger] kept.configured(
                    settings(config.services@),
                    times,
                    known@,
                )
            };
        assert(state@ == old(state)@.reloaded(settings(config.services@), times));
    }
    alerts.update_config(config.alert.clone());
}

/// A service that is to be checked again and again, and the seconds from one check to the next.
#[derive(Debug)]
pub struct Schedule {
    pub name: String,
    pub interval_secs: u64,
}

/// The services that are to be checked again and again: those that do not give signs of life.
pub fn schedules(config: &AppConfig) -> (schedules: Vec<Schedule>)
    ensures
        schedules@.map_values(|schedule: Schedule| (schedule.name@, schedule.interval_secs))
            == settings(config.services@).filter(
            |config: ServiceConfigView| !config.passive,
        ).map_values(|config: ServiceConfigView| (config.name, config.interval_secs)),
{
    let ghost all = settings(config.services@);
    let ghost active = |config: ServiceConfigView| !config.passive;
    let ghost shown = |config: ServiceConfigView| (config.name, config.interval_secs);
    let ghost listed = |schedule: Schedule| (schedule.name@, schedule.interval_secs);
    let mut schedules: Vec<Schedule> = Vec::new();
    proof {
        reveal(Seq::filter);
        assert(schedules@.map_values(listed) =~= all.take(0).filter(active).map_values(shown));
    }
    for i in 0..config.services.len()
        invariant
            all == settings(config.services@),
            active == |config: ServiceConfigView| !config.passive,
            shown == |config: ServiceConfigView| (config.name, config.interval_secs),
            listed == |schedule: Schedule| (schedule.name@, schedule.interval_secs),
            schedules@.map_values(listed) == all.take(i as int).filter(active).map_values(shown),
    {
        let service = &config.services[i];
        let ghost before = schedules@.map_values(listed);
        proof {
            assert(all.take(i + 1).drop_last() =~= all.take(i as int));
            assert(all.take(i + 1).last() == service@);
            reveal(Seq::filter);
        }
        if !service.passive {
            schedules.push(
                Schedule { name: service.name.clone(), interval_secs: service.interval_secs },
            );
            assert(schedules@.map_values(listed) =~= before.push(
                (service.name@, service.interval_secs),
            ));
        }
        assert(schedules@.map_values(listed) =~= all.take(i + 1).filter(active).map_values(shown));
    }
    assert(all.take(all.len() as int) =~= all);
    schedules
}

/// What has to be done to check a service.
#[derive(Debug)]
pub enum Step {
    /// Nothing: it is not configured.
    Skip,
    /// To look for its last sign of life.
    Watch,
    /// To probe it.
    Probe(ServiceConfig),
}

/// What has to be done to check a service.
pub fn check_step(state: &AppState, name: &str) -> (step: Step)
    ensures
        match step {
            Step::Skip => !state@.configs.contains_key(name@),
            Step::Watch => state@.configs.contains_key(name@) && state@.configs[name@].passive,
            Step::Probe(config) => {
                &&& state@.configs.contains_key(name@)
                &&& !state@.configs[name@].passive
                &&& config@ == state@.configs[name@]
            },
        },
{
    match state.configs.get(name) {
        Some(config) => {
            if config.passive {
                Step::Watch
            } else {
                Step::Probe(config.clone())
            }
        },
        None => Step::Skip,
    }
}

impl AppStateView {
    /// The status of a service that is there after one more result.
    pub open spec fn status_then(self, name: Seq<char>, success: bool) -> ServiceStatus {
        match self.change(name, success) {
            Some(status) => status,
            None => self.services[name].status,
        }
    }
}

/// Whether the monitor can take the result of a check: it can be counted, and the wait between
/// two alerts makes a time span, where it is needed.
pub open spec fn takes(
    state: AppStateView,
    alerts: AlertManagerView,
    name: Seq<char>,
    success: bool,
    alert_after_secs: u64,
) -> bool {
    &&& state.countable(name, success)
    &&& state.services.contains_key(name) && state.status_then(name, success) is Unhealthy
        && alerts.last_alert_time.contains_key(name) ==> clock::as_signed(alert_after_secs)
        >= -clock::MAX_SPAN_SECS
}

/// Whether the monitor can take the result of a check.
pub fn can_take(
    state: &AppState,
    alerts: &AlertManager,
    name: &str,
    success: bool,
    alert_after_secs: u64,
) -> (taken: bool)
    ensures
        taken == takes(state@, alerts@, name@, success, alert_after_secs),
{
    if !state.can_count(name, success) {
        return false;
    }
    let service = match state.services.get(name) {
        Some(service) => service,
        None => return true,
    };
    let status = match state.configs.get(name) {
        Some(config) => {
            let mut counted = service.clone();
            if success {
                counted.consecutive_successes = counted.consecutive_successes + 1;
                counted.consecutive_failures = 0;
            } else {
                counted.consecutive_failures = counted.consecutive_failures + 1;
                counted.consecutive_successes = 0;
            }
            let status = next_status(service.status, success, &counted, config);
            assert(counted@ == service@.counted(success));
            status
        },
        None => service.status,
    };
    assert(status == state@.status_then(name@, success));
    status != ServiceStatus::Unhealthy || !alerts.has_to_wait(name) || clock::signed_secs(
        alert_after_secs,
    ) >= -clock::MAX_SPAN_SECS
}

/// Whether `alert` is what goes out for a service, and `after` is what is noted then. For a
/// service that is not there nothing goes out.
pub open spec fn alerted(
    state: AppStateView,
    alerts: AlertManagerView,
    name: Seq<char>,
    alert_after_secs: u64,
    times: (Timestamp, Timestamp, Timestamp),
    alert: Option<Alert>,
    after: AlertManagerView,
) -> bool {
    if state.services.contains_key(name) {
        alerts.handled(name, state.services[name], alert_after_secs, times, alert, after)
    } else {
        alert is None && after == alerts
    }
}

/// Takes the result of a check at the current time: notes it, passes a new status on to the
/// dependency graph, and hands back the alert that has to go out.
pub fn finish_check(
    state: &mut AppState,
    graph: &mut DependencyGraph,
    alerts: &mut AlertManager,
    name: &str,
    result: CheckResult,
    alert_after_secs: u64,
) -> (alert: Option<Alert>)
    requires
        takes(old(state)@, old(alerts)@, name@, result.success, alert_after_secs),
    ensures
        final(graph)@ == old(graph)@.updated(
            name@,
            old(state)@.change(name@, result.success),
        ),
        exists|now: Timestamp|
            now.shown() && final(state)@ == #[trigger] old(state)@.checked(
                name@,
                result.success,
                models::optional_text(result.error),
                now,
            ),
        exists|due: Timestamp, sent: Timestamp, later: Timestamp|
            {
                &&& due.shown()
                &&& sent.shown()
                &&& later.shown()
                &&& #[trigger] alerted(
                    final(state)@,
                    old(alerts)@,
                    name@,
                    alert_after_secs,
                    (due, sent, later),
                    alert,
                    final(alerts)@,
                )
            },
{
    let now = clock::utc_now();
    let due = clock::utc_now();
    let sent = clock::utc_now();
    let later = clock::utc_now();
    finish_check_at(state, graph, alerts, name, result, alert_after_secs, now, (due, sent, later))
}

/// Takes the result of a check at `now`: notes it, passes a new status on to the dependency
/// graph, and hands back the alert that has to go out. Of the times, the first is when the
/// alert is found due, the second stands in its message, and the third is when it is on its
/// way.
pub fn finish_check_at(
    state: &mut AppState,
    graph: &mut DependencyGraph,
    alerts: &mut AlertManager,
    name: &str,
    result: CheckResult,
    alert_after_secs: u64,
    now: Timestamp,
    times: (Timestamp, Timestamp, Timestamp),
) -> (alert: Option<Alert>)
    requires
        takes(old(state)@, old(alerts)@, name@, result.success, alert_after_secs),
    ensures
        final(graph)@ == old(graph)@.updated(
            name@,
            old(state)@.change(name@, result.success),
        ),
        final(state)@ == old(state)@.checked(
            name@,
            result.success,
            models::optional_text(result.error),
            now,
        ),
        alerted(
            final(state)@,
            old(alerts)@,
            name@,
            alert_after_secs,
            times,
            alert,
            final(alerts)@,
        ),
{
    let change = state.apply_check_result_at(name, result.success, result.error, now);
    if let Some(status) = change {
        graph.update_status(name, status);
    }
    match state.services.get(name) {
        Some(service) => {
            proof {
                let known = old(state)@;
                assert(known.monitored(name@) ==> known.services[name@].checked(
                    result.success,
                    models::optional_text(result.error),
                    now,
                ).status == known.services[name@].status);
                assert(service@ == state@.services[name@]);
                assert(service@.status == known.status_then(name@, result.success));
            }
            alerts.check_and_send_alerts_at(
                name,
                service,
                alert_after_secs,
                times.0,
                times.1,
                times.2,
            )
        },
        None => None,
    }
}

/// The address on which the monitor answers requests.
pub fn listen_address(config: &ServerConfig) -> (address: String)
    ensures
        address@ == config.host@ + ":"@ + text::decimal(config.port as nat),
{
    text::enclose(
        config.host.as_str(),
        ":",
        text::decimal_text(config.port as u64).as_str(),
    )
}

} // verus!
