//! What holds when the configuration changes and when checks come in.

use crate::alert::{Alert, AlertManagerView};
use crate::clock::Timestamp;
use crate::laws::services;
use crate::models::{
    ServiceConfigView, ServiceStateView, ServiceStatus, StateHistoryEntryView,
};
use crate::monitor;
use crate::registry::AppStateView;
use crate::walk::Graph;
use vstd::prelude::*;

verus! {

/// The place of the last one of some configurations that names a service, or -1.
pub open spec fn last_place(configs: Seq<ServiceConfigView>, name: Seq<char>) -> int
    decreases configs.len(),
{
    if configs.len() == 0 {
        -1
    } else if configs.last().name == name {
        configs.len() - 1
    } else {
        last_place(configs.drop_last(), name)
    }
}

/// The last place is one that names the service, where there is one.
proof fn lemma_last_place(configs: Seq<ServiceConfigView>, name: Seq<char>)
    ensures
        monitor::names_service(configs, name) <==> last_place(configs, name) >= 0,
        last_place(configs, name) < configs.len(),
        last_place(configs, name) >= 0 ==> configs[last_place(configs, name)].name == name,
    decreases configs.len(),
{
    if configs.len() > 0 {
        let earlier = configs.drop_last();
        lemma_last_place(earlier, name);
        assert(configs[configs.len() - 1] == configs.last());
        if monitor::names_service(configs, name) {
            let i = choose|i: int| 0 <= i < configs.len() && #[trigger] configs[i].name == name;
            if i < earlier.len() {
                assert(earlier[i].name == name);
            }
        }
        if monitor::names_service(earlier, name) {
            let i = choose|i: int| 0 <= i < earlier.len() && #[trigger] earlier[i].name == name;
            assert(configs[i].name == name);
        }
    }
}

/// What is known of a service once some configurations were taken.
proof fn lemma_configured(
    app: AppStateView,
    configs: Seq<ServiceConfigView>,
    times: Seq<Timestamp>,
    known: Set<Seq<char>>,
    name: Seq<char>,
)
    ensures
        ({
            let after = app.configured(configs, times, known);
            let place = last_place(configs, name);
            if place < 0 {
                services::agree_on(app, after, name)
            } else {
                &&& after.configs.contains_key(name)
                &&& after.configs[name] == configs[place]
                &&& if known.contains(name) {
                    &&& after.services.contains_key(name) == app.services.contains_key(name)
                    &&& after.services.contains_key(name) ==> after.services[name]
                        == app.services[name]
                    &&& after.history.contains_key(name) == app.history.contains_key(name)
                    &&& after.history.contains_key(name) ==> after.history[name]
                        == app.history[name]
                } else {
                    &&& after.services.contains_key(name)
                    &&& after.services[name] == ServiceStateView::fresh(name, times[place])
                    &&& after.history.contains_key(name)
                    &&& after.history[name] == Seq::<StateHistoryEntryView>::empty()
                }
            }
        }),
    decreases configs.len(),
{
    lemma_last_place(configs, name);
    if configs.len() > 0 {
        lemma_last_place(configs.drop_last(), name);
        lemma_configured(app, configs.drop_last(), times, known, name);
    }
}

/// What is known of a service once some configurations were taken, one after the other: of one
/// that they do not name, what was known before. One that they name has the last configuration
/// that names it. If it was to be kept, its state and its changes stay; otherwise it is new, since
/// the time of that configuration, and has no changes.
pub proof fn law_configured(
    app: AppStateView,
    configs: Seq<ServiceConfigView>,
    times: Seq<Timestamp>,
    known: Set<Seq<char>>,
    name: Seq<char>,
)
    ensures
        ({
            let after = app.configured(configs, times, known);
            let place = last_place(configs, name);
            if place < 0 {
                services::agree_on(app, after, name)
            } else {
                &&& after.configs.contains_key(name)
                &&& after.configs[name] == configs[place]
                &&& if known.contains(name) {
                    &&& after.services.contains_key(name) == app.services.contains_key(name)
                    &&& after.services.contains_key(name) ==> after.services[name]
                        == app.services[name]
                    &&& after.history.contains_key(name) == app.history.contains_key(name)
                    &&& after.history.contains_key(name) ==> after.history[name]
                        == app.history[name]
                } else {
                    &&& after.services.contains_key(name)
                    &&& after.services[name] == ServiceStateView::fresh(name, times[place])
                    &&& after.history.contains_key(name)
                    &&& after.history[name] == Seq::<StateHistoryEntryView>::empty()
                }
            }
        }),
{
    lemma_configured(app, configs, times, known, name);
}

/// After a start exactly the services that the configuration names are there, all of them new,
/// each with what is configured for it.
pub proof fn law_start(configs: Seq<ServiceConfigView>, times: Seq<Timestamp>, name: Seq<char>)
    ensures
        ({
            let after = AppStateView::empty().configured(configs, times, Set::empty());
            &&& after.services.contains_key(name) <==> monitor::names_service(configs, name)
            &&& monitor::names_service(configs, name) ==> {
                &&& after.monitored(name)
                &&& after.configs[name] == configs[last_place(configs, name)]
                &&& after.services[name] == ServiceStateView::fresh(
                    name,
                    times[last_place(configs, name)],
                )
                &&& after.changes(name).len() == 0
            }
        }),
{
    lemma_last_place(configs, name);
    lemma_configured(AppStateView::empty(), configs, times, Set::empty(), name);
}

/// After a new configuration exactly the services that it names are there, each with what is
/// configured for it. One that was there before keeps its state and its changes, any other one
/// is new.
pub proof fn law_reload(
    app: AppStateView,
    configs: Seq<ServiceConfigView>,
    times: Seq<Timestamp>,
    name: Seq<char>,
)
    ensures
        ({
            let after = app.reloaded(configs, times);
            &&& after.services.contains_key(name) <==> monitor::names_service(configs, name)
            &&& monitor::names_service(configs, name) ==> {
                &&& after.monitored(name)
                &&& after.configs[name] == configs[last_place(configs, name)]
                &&& if app.services.contains_key(name) {
                    &&& after.services[name] == app.services[name]
                    &&& after.changes(name) == app.changes(name)
                } else {
                    &&& after.services[name] == ServiceStateView::fresh(
                        name,
                        times[last_place(configs, name)],
                    )
                    &&& after.changes(name).len() == 0
                }
            }
        }),
{
    lemma_last_place(configs, name);
    let kept = app.without(app.dropped(configs));
    lemma_configured(kept, configs, times, app.services.dom(), name);
    assert(app.dropped(configs).contains(name) <==> app.services.contains_key(name)
        && !monitor::names_service(configs, name));
}

/// All still fits together after a start and after a new configuration.
pub proof fn law_configuration_keeps_consistency(
    app: AppStateView,
    configs: Seq<ServiceConfigView>,
    times: Seq<Timestamp>,
)
    requires
        app.consistent(),
    ensures
        AppStateView::empty().configured(configs, times, Set::empty()).consistent(),
        app.reloaded(configs, times).consistent(),
{
    lemma_configured_consistent(AppStateView::empty(), configs, times, Set::empty());
    lemma_configured_consistent(
        app.without(app.dropped(configs)),
        configs,
        times,
        app.services.dom(),
    );
}

/// Configurations that are taken one after the other keep all fitting together.
proof fn lemma_configured_consistent(
    app: AppStateView,
    configs: Seq<ServiceConfigView>,
    times: Seq<Timestamp>,
    known: Set<Seq<char>>,
)
    requires
        app.consistent(),
    ensures
        app.configured(configs, times, known).consistent(),
    decreases configs.len(),
{
    if configs.len() > 0 {
        lemma_configured_consistent(app, configs.drop_last(), times, known);
    }
}

/// A configuration tells the dependency graph what each service that it names depends on. All
/// other services, and every status, stay as they were.
pub proof fn law_registered(graph: Graph, configs: Seq<ServiceConfigView>, name: Seq<char>)
    ensures
        graph.registered(configs).status(name) == graph.status(name),
        graph.registered(configs).dependencies(name) == if monitor::names_service(configs, name) {
            configs[last_place(configs, name)].dependencies
        } else {
            graph.dependencies(name)
        },
    decreases configs.len(),
{
    lemma_last_place(configs, name);
    if configs.len() > 0 {
        lemma_last_place(configs.drop_last(), name);
        law_registered(graph, configs.drop_last(), name);
    }
}

/// Where the dependency graph knows the status of a service, it still does after the next
/// check.
pub proof fn law_graph_keeps_up(
    app: AppStateView,
    graph: Graph,
    name: Seq<char>,
    success: bool,
    error: Option<Seq<char>>,
    now: Timestamp,
)
    requires
        app.configs.contains_key(name),
        app.services.contains_key(name),
        graph.status(name) == app.services[name].status,
    ensures
        graph.updated(name, app.change(name, success)).status(name) == app.checked(
            name,
            success,
            error,
            now,
        ).services[name].status,
{
}

/// Some services include one of a name where one of them has it.
pub proof fn law_names_service(configs: Seq<ServiceConfigView>, name: Seq<char>)
    ensures
        monitor::names_service(configs, name) <==> !(forall|i: int|
            0 <= i < configs.len() ==> #[trigger] configs[i].name != name),
{
}

/// There is a time for each of some services, and each is one that a clock can show.
pub proof fn law_times(configs: Seq<ServiceConfigView>, times: Seq<Timestamp>, i: int)
    requires
        monitor::times_for(configs, times),
    ensures
        times.len() == configs.len(),
        0 <= i < times.len() ==> times[i].valid() && times[i].instant() >= 0,
{
}

/// After a new configuration nothing at all is left of a service that was there and that it does
/// not name, and each service that it names has a history if it is new or had one.
pub proof fn law_dropped_services_are_gone(
    app: AppStateView,
    configs: Seq<ServiceConfigView>,
    times: Seq<Timestamp>,
    name: Seq<char>,
)
    requires
        app.services.contains_key(name),
    ensures
        (forall|i: int| 0 <= i < configs.len() ==> #[trigger] configs[i].name != name) ==> {
            let after = app.reloaded(configs, times);
            &&& !after.services.contains_key(name)
            &&& !after.configs.contains_key(name)
            &&& !after.history.contains_key(name)
        },
        (exists|i: int| 0 <= i < configs.len() && #[trigger] configs[i].name == name) ==> {
            let after = app.reloaded(configs, times);
            &&& after.services.contains_key(name)
            &&& after.services[name] == app.services[name]
            &&& after.history.contains_key(name) == app.history.contains_key(name)
            &&& app.history.contains_key(name) ==> after.history[name] == app.history[name]
        },
{
    lemma_last_place(configs, name);
    let kept = app.without(app.dropped(configs));
    lemma_configured(kept, configs, times, app.services.dom(), name);
    assert(app.dropped(configs).contains(name) <==> !monitor::names_service(configs, name));
}

/// A new status of a service is all that reaches the dependency graph.
pub proof fn law_graph_is_updated(
    graph: Graph,
    name: Seq<char>,
    change: Option<ServiceStatus>,
    other: Seq<char>,
)
    ensures
        graph.updated(name, change).nodes == graph.nodes,
        change is None ==> graph.updated(name, change) == graph,
        change is Some ==> graph.updated(name, change).statuses.contains_key(name)
            && graph.updated(name, change).statuses[name] == change->0,
        other != name ==> {
            &&& graph.updated(name, change).statuses.contains_key(other)
                == graph.statuses.contains_key(other)
            &&& graph.updated(name, change).statuses[other] == graph.statuses[other]
        },
{
}

/// After a check of a service that is there, whatever its status is, the alert that is handed
/// back is the one that is due for its new state, and what is noted follows from that one. A
/// service that is healthy while an alert about it is open is told to have recovered, and the
/// alert is open no longer. For a service that is not there nothing is told or noted.
pub proof fn law_finished_check_is_told(
    app: AppStateView,
    alerts: AlertManagerView,
    name: Seq<char>,
    secs: u64,
    times: (Timestamp, Timestamp, Timestamp),
    sent: Option<Alert>,
    after: AlertManagerView,
)
    requires
        monitor::alerted(app, alerts, name, secs, times, sent, after),
    ensures
        app.services.contains_key(name) ==> {
            let state = app.services[name];
            let due = alerts.due(name, state, secs, times.0);
            &&& sent is Some <==> due is Some
            &&& after == alerts.noted(name, due, times.0, times.2)
            &&& sent is Some ==> sent->0.tells(alerts.webhooks, name, state, due->0, times.1)
            &&& state.status == ServiceStatus::Healthy && alerts.alerting_services.contains(name)
                ==> {
                &&& sent is Some
                &&& sent->0.message.service@ == name
                &&& sent->0.message.event@ == "服务已恢复"@
                &&& !after.alerting_services.contains(name)
            }
        },
        !app.services.contains_key(name) ==> sent is None && after == alerts,
{
}

/// The monitor can take a result that can be counted, unless the service is unhealthy with it,
/// something was told of it before, and the seconds to be waited are below what a time span can
/// be made of.
pub proof fn law_results_can_be_taken(
    app: AppStateView,
    alerts: AlertManagerView,
    name: Seq<char>,
    success: bool,
    error: Option<Seq<char>>,
    now: Timestamp,
    secs: u64,
)
    ensures
        monitor::takes(app, alerts, name, success, secs) <==> app.countable(name, success) && {
            ||| !app.services.contains_key(name)
            ||| app.checked(name, success, error, now).services[name].status
                != ServiceStatus::Unhealthy
            ||| !alerts.last_alert_time.contains_key(name)
            ||| secs <= 0x7fff_ffff_ffff_ffff
            ||| secs - 0x1_0000_0000_0000_0000 >= -9_223_372_036_854_775
        },
{
}

} // verus!
