//! What holds of the services whatever happens.

use crate::clock;
use crate::clock::Timestamp;
use crate::history;
use crate::models::{
    ServiceConfigView, ServiceStateView, ServiceStatus, StateHistoryEntryView,
};
use crate::registry;
use crate::registry::AppStateView;
use crate::text;
use vstd::prelude::*;

verus! {

/// Whether a status can follow another: only one step up or down at a time, but for the first.
pub open spec fn follows(from: ServiceStatus, to: ServiceStatus) -> bool {
    match (from, to) {
        (ServiceStatus::Unknown, ServiceStatus::Healthy) => true,
        (ServiceStatus::Unknown, ServiceStatus::Unhealthy) => true,
        (ServiceStatus::Healthy, ServiceStatus::Degraded) => true,
        (ServiceStatus::Degraded, ServiceStatus::Healthy) => true,
        (ServiceStatus::Degraded, ServiceStatus::Unhealthy) => true,
        (ServiceStatus::Unhealthy, ServiceStatus::Degraded) => true,
        _ => false,
    }
}

/// A check leaves a status as it was, or moves it to one that can follow it. So no service
/// goes from healthy to unhealthy or back in one step, and none becomes unknown again.
pub proof fn law_one_step_at_a_time(
    current: ServiceStatus,
    success: bool,
    state: ServiceStateView,
    config: ServiceConfigView,
)
    ensures
        registry::status_after(current, success, state, config) == current || follows(
            current,
            registry::status_after(current, success, state, config),
        ),
        !(registry::status_after(current, success, state, config) is Unknown),
{
}

/// A success never makes a status worse, and a failure never makes it better.
pub proof fn law_right_direction(
    current: ServiceStatus,
    success: bool,
    state: ServiceStateView,
    config: ServiceConfigView,
)
    requires
        !(current is Unknown),
    ensures
        success ==> health(registry::status_after(current, success, state, config)) >= health(
            current,
        ),
        !success ==> health(registry::status_after(current, success, state, config)) <= health(
            current,
        ),
{
}

/// How well a service with a status is.
pub open spec fn health(status: ServiceStatus) -> int {
    match status {
        ServiceStatus::Unknown => 0,
        ServiceStatus::Unhealthy => 1,
        ServiceStatus::Degraded => 2,
        ServiceStatus::Healthy => 3,
    }
}

/// Whether kept changes explain the state of a service: each follows on the one before it, and
/// the last led to the status that the service has, at the time since when it has it. As long
/// as there is room for more, the oldest is the first of all. A service without changes was
/// never checked.
pub open spec fn explains(
    changes: Seq<StateHistoryEntryView>,
    state: ServiceStateView,
) -> bool {
    &&& changes.len() <= history::HISTORY_CAPACITY
    &&& forall|i: int|
        0 <= i < changes.len() ==> follows((#[trigger] changes[i]).from, changes[i].to)
    &&& forall|i: int, j: int|
        0 <= i < j < changes.len() && j == i + 1 ==> (#[trigger] changes[i]).to == (
        #[trigger] changes[j]).from
    &&& 0 < changes.len() < history::HISTORY_CAPACITY ==> changes[0].from is Unknown
    &&& changes.len() > 0 ==> {
        &&& changes.last().to == state.status
        &&& changes.last().timestamp == state.status_since
    }
    &&& changes.len() == 0 <==> state.status is Unknown
    &&& state.last_check is None <==> state.status is Unknown
    &&& state.consecutive_successes == 0 || state.consecutive_failures == 0
}

impl AppStateView {
    /// Whether all that is known of the services fits together.
    pub open spec fn consistent(self) -> bool {
        &&& forall|name: Seq<char>| #[trigger]
            self.services.contains_key(name) ==> {
                &&& self.configs.contains_key(name)
                &&& self.history.contains_key(name)
                &&& self.services[name].name == name
                &&& explains(self.history[name], self.services[name])
            }
        &&& forall|name: Seq<char>| #[trigger]
            self.history.contains_key(name) ==> self.services.contains_key(name)
        &&& forall|name: Seq<char>| #[trigger]
            self.configs.contains_key(name) ==> self.configs[name].name == name
    }

    /// A service whose changes explain its state takes one more result, and they still do.
    proof fn lemma_settled(
        self,
        name: Seq<char>,
        state: ServiceStateView,
        success: bool,
        reason: Seq<char>,
        now: Timestamp,
    )
        requires
            self.consistent(),
            self.monitored(name),
            state.name == name,
            state.status == self.services[name].status,
            state.status_since == self.services[name].status_since,
            state.last_check is Some,
            state.consecutive_successes == 0 || state.consecutive_failures == 0,
        ensures
            self.settled(name, state, self.next_status(name, success), reason, now).consistent(),
    {
        let to = self.next_status(name, success);
        let after = self.settled(name, state, to, reason, now);
        let changes = self.history[name];
        law_one_step_at_a_time(
            self.services[name].status,
            success,
            self.services[name].counted(success),
            self.configs[name],
        );
        assert(self.services.contains_key(name));
        if to != state.status {
            let entry = StateHistoryEntryView { from: state.status, to, timestamp: now, reason };
            lemma_remembered(changes, self.services[name], entry);
            assert(after.history[name] == history::remember(changes, entry));
            assert(explains(after.history[name], after.services[name]));
        } else {
            assert(explains(after.history[name], after.services[name]));
        }
    }
}

/// Changes with one more still follow on each other.
proof fn lemma_remembered(
    changes: Seq<StateHistoryEntryView>,
    state: ServiceStateView,
    entry: StateHistoryEntryView,
)
    requires
        explains(changes, state),
        entry.from == state.status,
        follows(entry.from, entry.to),
    ensures
        ({
            let after = history::remember(changes, entry);
            &&& 0 < after.len() <= history::HISTORY_CAPACITY
            &&& after.last() == entry
            &&& after.len() < history::HISTORY_CAPACITY ==> after[0].from is Unknown
            &&& forall|i: int|
                0 <= i < after.len() ==> follows((#[trigger] after[i]).from, after[i].to)
            &&& forall|i: int, j: int|
                0 <= i < j < after.len() && j == i + 1 ==> (#[trigger] after[i]).to == (
                #[trigger] after[j]).from
        }),
{
    let after = history::remember(changes, entry);
    let shift: int = if changes.len() < history::HISTORY_CAPACITY {
        0
    } else {
        1
    };
    assert forall|i: int| 0 <= i < after.len() - 1 implies #[trigger] after[i] == changes[i
        + shift] by {}
    assert forall|i: int| 0 <= i < after.len() implies follows(
        (#[trigger] after[i]).from,
        after[i].to,
    ) by {
        if i < after.len() - 1 {
            assert(after[i] == changes[i + shift]);
        }
    }
    assert forall|i: int, j: int| 0 <= i < j < after.len() && j == i + 1 implies (
    #[trigger] after[i]).to == (#[trigger] after[j]).from by {
        assert(after[i] == changes[i + shift]);
        if j < after.len() - 1 {
            assert(after[j] == changes[j + shift]);
        }
    }
}

/// All fits together at the start, and whatever happens to a service, it does afterwards.
pub proof fn law_consistent(
    app: AppStateView,
    name: Seq<char>,
    success: bool,
    error: Option<Seq<char>>,
    config: ServiceConfigView,
    now: Timestamp,
    later: Timestamp,
)
    requires
        app.consistent(),
    ensures
        AppStateView::empty().consistent(),
        app.checked(name, success, error, now).consistent(),
        app.beaten(name, now).consistent(),
        app.timed(name, now, later).consistent(),
        app.added(config, now).consistent(),
        app.removed(name).consistent(),
        app.reconfigured(config).consistent(),
{
    if app.monitored(name) {
        let checked = app.services[name].checked(success, error, now);
        app.lemma_settled(
            name,
            checked,
            success,
            registry::check_reason(success, checked, error),
            now,
        );
        let beaten = app.services[name].beaten(now);
        app.lemma_settled(name, beaten, true, "收到心跳"@, now);
        let failed = app.services[name].checked(false, Some("心跳超时"@), later);
        app.lemma_settled(
            name,
            failed,
            false,
            registry::check_reason(false, failed, Some("心跳超时"@)),
            later,
        );
    }
}

/// The first check of a service decides its status.
pub proof fn law_first_check_decides(
    app: AppStateView,
    name: Seq<char>,
    success: bool,
    error: Option<Seq<char>>,
    now: Timestamp,
)
    requires
        app.configs.contains_key(name),
        app.services.contains_key(name),
        app.services[name].status is Unknown,
    ensures
        app.checked(name, success, error, now).services[name].status == if success {
            ServiceStatus::Healthy
        } else {
            ServiceStatus::Unhealthy
        },
{
}

/// A success ends a run of failures, and a failure ends a run of successes.
pub proof fn law_runs_end(
    app: AppStateView,
    name: Seq<char>,
    success: bool,
    error: Option<Seq<char>>,
    now: Timestamp,
)
    requires
        app.configs.contains_key(name),
        app.services.contains_key(name),
    ensures
        ({
            let before = app.services[name];
            let after = app.checked(name, success, error, now).services[name];
            if success {
                &&& after.consecutive_failures == 0
                &&& after.consecutive_successes == before.consecutive_successes + 1
            } else {
                &&& after.consecutive_successes == 0
                &&& after.consecutive_failures == before.consecutive_failures + 1
            }
        }),
{
}

/// What a check showed, and when.
pub struct Outcome {
    pub success: bool,
    pub error: Option<Seq<char>>,
    pub at: Timestamp,
}

impl AppStateView {
    /// After some checks of a service, one after the other.
    pub open spec fn run(self, name: Seq<char>, outcomes: Seq<Outcome>) -> AppStateView
        decreases outcomes.len(),
    {
        if outcomes.len() == 0 {
            self
        } else {
            self.run(name, outcomes.drop_last()).checked(
                name,
                outcomes.last().success,
                outcomes.last().error,
                outcomes.last().at,
            )
        }
    }
}

/// Whether all of some checks came out the same way.
pub open spec fn all_are(outcomes: Seq<Outcome>, success: bool) -> bool {
    forall|i: int| 0 <= i < outcomes.len() ==> (#[trigger] outcomes[i]).success == success
}

/// Checks that come out the same way are all counted.
pub proof fn law_runs_are_counted(
    app: AppStateView,
    name: Seq<char>,
    outcomes: Seq<Outcome>,
    success: bool,
)
    requires
        app.configs.contains_key(name),
        app.services.contains_key(name),
        all_are(outcomes, success),
    ensures
        app.run(name, outcomes).configs.contains_key(name),
        app.run(name, outcomes).services.contains_key(name),
        app.run(name, outcomes).configs == app.configs,
        ({
            let before = app.services[name];
            let after = app.run(name, outcomes).services[name];
            if success {
                after.consecutive_successes == before.consecutive_successes + outcomes.len()
            } else {
                after.consecutive_failures == before.consecutive_failures + outcomes.len()
            }
        }),
    decreases outcomes.len(),
{
    if outcomes.len() > 0 {
        let earlier = outcomes.drop_last();
        assert forall|i: int| 0 <= i < earlier.len() implies (#[trigger] earlier[i]).success
            == success by {
            assert(earlier[i] == outcomes[i]);
        }
        law_runs_are_counted(app, name, earlier, success);
        assert(outcomes.last().success == success);
    }
}

/// A healthy service stays healthy through failures as long as fewer came in a row than its
/// threshold says, and is degraded by the one that makes them enough.
pub proof fn law_degraded_at_threshold(app: AppStateView, name: Seq<char>, outcomes: Seq<Outcome>)
    requires
        app.configs.contains_key(name),
        app.services.contains_key(name),
        app.services[name].status is Healthy,
        all_are(outcomes, false),
        outcomes.len() <= 1 || app.services[name].consecutive_failures + outcomes.len() - 1
            < app.configs[name].degraded_threshold,
    ensures
        app.run(name, outcomes).services[name].status == if outcomes.len() > 0
            && app.services[name].consecutive_failures + outcomes.len()
            >= app.configs[name].degraded_threshold {
            ServiceStatus::Degraded
        } else {
            ServiceStatus::Healthy
        },
    decreases outcomes.len(),
{
    if outcomes.len() > 0 {
        let earlier = outcomes.drop_last();
        assert(all_are(earlier, false)) by {
            assert(forall|i: int|
                0 <= i < earlier.len() ==> #[trigger] earlier[i] == outcomes[i]);
        }
        law_degraded_at_threshold(app, name, earlier);
        law_runs_are_counted(app, name, earlier, false);
        assert(outcomes.last().success == false);
    }
}

/// A degraded service stays degraded through failures as long as fewer came in a row than its
/// threshold says, and becomes unhealthy with the one that makes them enough.
pub proof fn law_unhealthy_at_threshold(app: AppStateView, name: Seq<char>, outcomes: Seq<Outcome>)
    requires
        app.configs.contains_key(name),
        app.services.contains_key(name),
        app.services[name].status is Degraded,
        all_are(outcomes, false),
        outcomes.len() <= 1 || app.services[name].consecutive_failures + outcomes.len() - 1
            < app.configs[name].unhealthy_threshold,
    ensures
        app.run(name, outcomes).services[name].status == if outcomes.len() > 0
            && app.services[name].consecutive_failures + outcomes.len()
            >= app.configs[name].unhealthy_threshold {
            ServiceStatus::Unhealthy
        } else {
            ServiceStatus::Degraded
        },
    decreases outcomes.len(),
{
    if outcomes.len() > 0 {
        let earlier = outcomes.drop_last();
        assert(all_are(earlier, false)) by {
            assert(forall|i: int|
                0 <= i < earlier.len() ==> #[trigger] earlier[i] == outcomes[i]);
        }
        law_unhealthy_at_threshold(app, name, earlier);
        law_runs_are_counted(app, name, earlier, false);
        assert(outcomes.last().success == false);
    }
}

/// A service that is degraded or unhealthy stays so through successes as long as fewer came in
/// a row than its threshold says, and moves one step up with the one that makes them enough.
pub proof fn law_recovers_at_threshold(app: AppStateView, name: Seq<char>, outcomes: Seq<Outcome>)
    requires
        app.configs.contains_key(name),
        app.services.contains_key(name),
        app.services[name].status.troubled(),
        all_are(outcomes, true),
        outcomes.len() <= 1 || app.services[name].consecutive_successes + outcomes.len() - 1
            < app.configs[name].healthy_threshold,
    ensures
        app.run(name, outcomes).services[name].status == if outcomes.len() > 0
            && app.services[name].consecutive_successes + outcomes.len()
            >= app.configs[name].healthy_threshold {
            if app.services[name].status is Unhealthy {
                ServiceStatus::Degraded
            } else {
                ServiceStatus::Healthy
            }
        } else {
            app.services[name].status
        },
    decreases outcomes.len(),
{
    if outcomes.len() > 0 {
        let earlier = outcomes.drop_last();
        assert(all_are(earlier, true)) by {
            assert(forall|i: int|
                0 <= i < earlier.len() ==> #[trigger] earlier[i] == outcomes[i]);
        }
        law_recovers_at_threshold(app, name, earlier);
        law_runs_are_counted(app, name, earlier, true);
        assert(outcomes.last().success == true);
    }
}

/// An unhealthy service stays unhealthy through failures, and a healthy one stays healthy
/// through successes, however many there are.
pub proof fn law_agreement_changes_nothing(
    app: AppStateView,
    name: Seq<char>,
    outcomes: Seq<Outcome>,
    success: bool,
)
    requires
        app.configs.contains_key(name),
        app.services.contains_key(name),
        app.services[name].status == if success {
            ServiceStatus::Healthy
        } else {
            ServiceStatus::Unhealthy
        },
        all_are(outcomes, success),
    ensures
        app.run(name, outcomes).services[name].status == app.services[name].status,
        app.run(name, outcomes).history == app.history,
    decreases outcomes.len(),
{
    if outcomes.len() > 0 {
        let earlier = outcomes.drop_last();
        assert(all_are(earlier, success)) by {
            assert(forall|i: int|
                0 <= i < earlier.len() ==> #[trigger] earlier[i] == outcomes[i]);
        }
        law_agreement_changes_nothing(app, name, earlier, success);
        law_runs_are_counted(app, name, earlier, success);
        assert(outcomes.last().success == success);
    }
}

/// Whether two states agree on a service.
pub open spec fn agree_on(before: AppStateView, after: AppStateView, name: Seq<char>) -> bool {
    &&& before.services.contains_key(name) == after.services.contains_key(name)
    &&& before.configs.contains_key(name) == after.configs.contains_key(name)
    &&& before.history.contains_key(name) == after.history.contains_key(name)
    &&& before.services.contains_key(name) ==> before.services[name] == after.services[name]
    &&& before.configs.contains_key(name) ==> before.configs[name] == after.configs[name]
    &&& before.history.contains_key(name) ==> before.history[name] == after.history[name]
}

/// What happens to one service leaves every other one as it was.
pub proof fn law_others_stay(
    app: AppStateView,
    config: ServiceConfigView,
    other: Seq<char>,
    success: bool,
    error: Option<Seq<char>>,
    now: Timestamp,
    later: Timestamp,
)
    requires
        other != config.name,
    ensures
        agree_on(app, app.checked(config.name, success, error, now), other),
        agree_on(app, app.beaten(config.name, now), other),
        agree_on(app, app.timed(config.name, now, later), other),
        agree_on(app, app.added(config, now), other),
        agree_on(app, app.removed(config.name), other),
        agree_on(app, app.reconfigured(config), other),
{
}

/// Nothing happens to a service that is not monitored.
pub proof fn law_strangers_are_ignored(
    app: AppStateView,
    name: Seq<char>,
    success: bool,
    error: Option<Seq<char>>,
    now: Timestamp,
    later: Timestamp,
)
    requires
        !app.configs.contains_key(name) || !app.services.contains_key(name),
    ensures
        app.checked(name, success, error, now) == app,
        app.beaten(name, now) == app,
        app.timed(name, now, later) == app,
        !app.lapsed(name, now),
        app.change(name, success) is None,
{
}

/// To remove a service undoes that it was added, whatever was known of it.
pub proof fn law_remove_undoes_add(app: AppStateView, config: ServiceConfigView, now: Timestamp)
    ensures
        app.added(config, now).removed(config.name) == app.removed(config.name),
        !app.services.contains_key(config.name) && !app.configs.contains_key(config.name)
            && !app.history.contains_key(config.name) ==> app.added(config, now).removed(
            config.name,
        ) == app,
{
    let after = app.added(config, now).removed(config.name);
    let without = app.removed(config.name);
    assert(after =~= without);
    if !app.services.contains_key(config.name) && !app.configs.contains_key(config.name)
        && !app.history.contains_key(config.name) {
        assert(without =~= app);
    }
}

/// Another configuration leaves the state and the changes of every service as they were.
pub proof fn law_reconfiguring_keeps_state(
    app: AppStateView,
    config: ServiceConfigView,
    name: Seq<char>,
)
    ensures
        app.reconfigured(config).services == app.services,
        app.reconfigured(config).changes(name) == app.changes(name),
        app.reconfigured(config).configs[config.name] == config,
{
}

/// A sign of life counts as a successful check: but for the time of the last sign of life,
/// both lead to the same state of the service.
pub proof fn law_beat_is_a_success(app: AppStateView, name: Seq<char>, now: Timestamp)
    requires
        app.configs.contains_key(name),
        app.services.contains_key(name),
    ensures
        app.beaten(name, now).services[name] == (ServiceStateView {
            last_heartbeat: Some(now),
            ..app.checked(name, true, None, now).services[name]
        }),
{
}

/// A service that gave a sign of life is not held against it until its timeout has passed, and
/// is once it has.
pub proof fn law_beat_lasts(
    app: AppStateView,
    name: Seq<char>,
    beat: Timestamp,
    now: Timestamp,
    later: Timestamp,
)
    requires
        app.configs.contains_key(name),
        app.services.contains_key(name),
        app.configs[name].passive,
    ensures
        ({
            let after = app.beaten(name, beat);
            let timeout = clock::as_signed(app.configs[name].heartbeat_timeout_secs)
                * 1_000_000_000;
            if now.instant() - beat.instant() <= timeout {
                after.timed(name, now, later) == after
            } else {
                after.timed(name, now, later) == after.checked(
                    name,
                    false,
                    Some("心跳超时"@),
                    later,
                )
            }
        }),
{
}

/// A check that changes the status of a service puts the change in front of the earlier ones,
/// of which the oldest leaves if there is no room. One that changes nothing leaves them alone.
pub proof fn law_newest_change_first(
    app: AppStateView,
    name: Seq<char>,
    success: bool,
    error: Option<Seq<char>>,
    now: Timestamp,
)
    requires
        app.consistent(),
        app.configs.contains_key(name),
        app.services.contains_key(name),
    ensures
        ({
            let before = app.changes(name);
            let after = app.checked(name, success, error, now).changes(name);
            match app.change(name, success) {
                Some(to) => {
                    &&& after.len() > 0
                    &&& after[0].from == app.services[name].status
                    &&& after[0].to == to
                    &&& after[0].timestamp == now
                    &&& after.drop_first() == before.take(
                        if before.len() < history::HISTORY_CAPACITY {
                            before.len() as int
                        } else {
                            history::HISTORY_CAPACITY - 1
                        },
                    )
                },
                None => after == before,
            }
        }),
{
    assert(app.services.contains_key(name));
    let before = app.changes(name);
    let after = app.checked(name, success, error, now).changes(name);
    if app.change(name, success) is Some {
        assert(after.drop_first() =~= before.take(
            if before.len() < history::HISTORY_CAPACITY {
                before.len() as int
            } else {
                history::HISTORY_CAPACITY - 1
            },
        ));
    }
}

/// Something that happens to a service.
pub enum Event {
    /// A check.
    Checked(Outcome),
    /// A sign of life at a time.
    Beaten(Timestamp),
    /// A look at a time for the last sign of life, which counts at a later time if there was
    /// none.
    Watched(Timestamp, Timestamp),
    /// Another configuration.
    Reconfigured(ServiceConfigView),
}

impl AppStateView {
    /// After something happened to a service.
    pub open spec fn happened(self, name: Seq<char>, event: Event) -> AppStateView {
        match event {
            Event::Checked(outcome) => self.checked(
                name,
                outcome.success,
                outcome.error,
                outcome.at,
            ),
            Event::Beaten(at) => self.beaten(name, at),
            Event::Watched(now, later) => self.timed(name, now, later),
            Event::Reconfigured(config) => self.reconfigured(
                ServiceConfigView { name, ..config },
            ),
        }
    }

    /// After some things happened to a service, one after the other.
    pub open spec fn lived(self, name: Seq<char>, events: Seq<Event>) -> AppStateView
        decreases events.len(),
    {
        if events.len() == 0 {
            self
        } else {
            self.lived(name, events.drop_last()).happened(name, events.last())
        }
    }

    /// The change of status that a result of a check brings, if any.
    pub open spec fn change_by(
        self,
        name: Seq<char>,
        success: bool,
        reason: Seq<char>,
        now: Timestamp,
    ) -> Seq<StateHistoryEntryView> {
        match self.change(name, success) {
            Some(to) => seq![
                StateHistoryEntryView {
                    from: self.services[name].status,
                    to,
                    timestamp: now,
                    reason,
                },
            ],
            None => Seq::empty(),
        }
    }

    /// The change of status that something brings that happens to a service, if any.
    pub open spec fn brought(self, name: Seq<char>, event: Event) -> Seq<StateHistoryEntryView> {
        match event {
            Event::Checked(outcome) => self.change_by(
                name,
                outcome.success,
                registry::check_reason(
                    outcome.success,
                    self.services[name].counted(outcome.success),
                    outcome.error,
                ),
                outcome.at,
            ),
            Event::Beaten(at) => self.change_by(name, true, "收到心跳"@, at),
            Event::Watched(now, later) => if self.lapsed(name, now) {
                self.change_by(
                    name,
                    false,
                    registry::check_reason(
                        false,
                        self.services[name].counted(false),
                        Some("心跳超时"@),
                    ),
                    later,
                )
            } else {
                Seq::empty()
            },
            Event::Reconfigured(_) => Seq::empty(),
        }
    }

    /// All changes of status that some things bring that happen to a service, the oldest first.
    pub open spec fn story(self, name: Seq<char>, events: Seq<Event>) -> Seq<StateHistoryEntryView>
        decreases events.len(),
    {
        if events.len() == 0 {
            Seq::empty()
        } else {
            let before = events.drop_last();
            self.story(name, before) + self.lived(name, before).brought(name, events.last())
        }
    }
}

/// As many of some changes as are kept, the last ones.
pub open spec fn kept(changes: Seq<StateHistoryEntryView>) -> Seq<StateHistoryEntryView> {
    if changes.len() <= history::HISTORY_CAPACITY {
        changes
    } else {
        changes.skip(changes.len() - history::HISTORY_CAPACITY)
    }
}

/// Whatever happens to a service, of its changes before and since then the last ones are kept,
/// as many as there is room for.
pub proof fn law_last_changes_are_kept(app: AppStateView, name: Seq<char>, events: Seq<Event>)
    requires
        app.configs.contains_key(name),
        app.services.contains_key(name),
        app.history.contains_key(name),
        app.history[name].len() <= history::HISTORY_CAPACITY,
    ensures
        app.lived(name, events).configs.contains_key(name),
        app.lived(name, events).services.contains_key(name),
        app.lived(name, events).history.contains_key(name),
        app.lived(name, events).history[name] == kept(app.history[name] + app.story(name, events)),
    decreases events.len(),
{
    if events.len() == 0 {
        assert(app.history[name] + app.story(name, events) =~= app.history[name]);
    } else {
        let before = events.drop_last();
        let event = events.last();
        law_last_changes_are_kept(app, name, before);
        let earlier = app.lived(name, before);
        let known = app.history[name] + app.story(name, before);
        let brought = earlier.brought(name, event);
        assert(app.history[name] + app.story(name, events) =~= known + brought);
        if brought.len() == 0 {
            assert(known + brought =~= known);
            assert(earlier.happened(name, event).history[name] == earlier.history[name]);
        } else {
            assert(earlier.happened(name, event).history[name] == history::remember(
                earlier.history[name],
                brought[0],
            ));
            assert(history::remember(kept(known), brought[0]) =~= kept(known + brought));
        }
    }
}

/// Of the changes of a service since it was added as many are kept as there is room for, and as
/// long as that is all of them, the oldest one starts with an unknown status.
pub proof fn law_changes_since_the_start(
    app: AppStateView,
    config: ServiceConfigView,
    now: Timestamp,
    events: Seq<Event>,
)
    ensures
        ({
            let start = app.added(config, now);
            let story = start.story(config.name, events);
            let changes = start.lived(config.name, events).history[config.name];
            &&& changes == kept(story)
            &&& changes.len() == if story.len() <= history::HISTORY_CAPACITY {
                story.len() as int
            } else {
                history::HISTORY_CAPACITY as int
            }
            &&& 0 < story.len() <= history::HISTORY_CAPACITY ==> changes[0].from is Unknown
        }),
{
    let start = app.added(config, now);
    law_last_changes_are_kept(start, config.name, events);
    assert(start.history[config.name] + start.story(config.name, events) =~= start.story(
        config.name,
        events,
    ));
    lemma_story_starts_unknown(start, config.name, events);
}

/// The first change of a service of unknown status starts there, and until then it has that
/// status.
proof fn lemma_story_starts_unknown(app: AppStateView, name: Seq<char>, events: Seq<Event>)
    requires
        app.configs.contains_key(name),
        app.services.contains_key(name),
        app.services[name].status is Unknown,
    ensures
        app.lived(name, events).configs.contains_key(name),
        app.lived(name, events).services.contains_key(name),
        if app.story(name, events).len() == 0 {
            app.lived(name, events).services[name].status is Unknown
        } else {
            app.story(name, events)[0].from is Unknown
        },
    decreases events.len(),
{
    if events.len() > 0 {
        lemma_story_starts_unknown(app, name, events.drop_last());
    }
}

/// A look for the last sign of life of a service that has to give them is a failed check where
/// there was none yet or the last one is older than the timeout, and does nothing otherwise.
pub proof fn law_timeout_is_a_failed_check(
    app: AppStateView,
    name: Seq<char>,
    now: Timestamp,
    later: Timestamp,
)
    requires
        app.configs.contains_key(name),
        app.services.contains_key(name),
    ensures
        ({
            let state = app.services[name];
            let timeout = clock::as_signed(app.configs[name].heartbeat_timeout_secs)
                * 1_000_000_000;
            let late = app.configs[name].passive && (state.last_heartbeat is None
                || now.instant() - state.last_heartbeat->0.instant() > timeout);
            &&& app.lapsed(name, now) <==> late
            &&& late ==> app.timed(name, now, later) == app.checked(
                name,
                false,
                Some("心跳超时"@),
                later,
            )
            &&& !late ==> app.timed(name, now, later) == app
        }),
{
}

/// A check of a service notes its time. A success is the last success, and ends the last error; a
/// failure leaves the last success alone, and its error is the last one. The runs of equal
/// results go on or end. The service keeps its name and the time of its last sign of life, and
/// since when it has its status, unless the status changes: then it has it since the check.
pub proof fn law_check_is_noted(
    app: AppStateView,
    name: Seq<char>,
    success: bool,
    error: Option<Seq<char>>,
    now: Timestamp,
)
    requires
        app.configs.contains_key(name),
        app.services.contains_key(name),
    ensures
        ({
            let before = app.services[name];
            let all = app.checked(name, success, error, now);
            let after = all.services[name];
            &&& all.services.contains_key(name)
            &&& all.configs == app.configs
            &&& after.last_check == Some(now)
            &&& success ==> after.last_success == Some(now) && after.last_error is None
            &&& !success ==> after.last_success == before.last_success && after.last_error == error
            &&& success ==> after.consecutive_failures == 0 && after.consecutive_successes
                == before.consecutive_successes + 1
            &&& !success ==> after.consecutive_successes == 0 && after.consecutive_failures
                == before.consecutive_failures + 1
            &&& after.name == before.name
            &&& after.last_heartbeat == before.last_heartbeat
            &&& after.status == before.status ==> after.status_since == before.status_since
            &&& after.status != before.status ==> after.status_since == now
        }),
{
}

/// A sign of life of a service notes its time as that of a sign of life and as that of a
/// successful check. In all else the service is as after such a check.
pub proof fn law_beat_is_noted(app: AppStateView, name: Seq<char>, now: Timestamp)
    requires
        app.configs.contains_key(name),
        app.services.contains_key(name),
    ensures
        ({
            let before = app.services[name];
            let all = app.beaten(name, now);
            let after = all.services[name];
            &&& all.services.contains_key(name)
            &&& all.configs == app.configs
            &&& after.last_heartbeat == Some(now)
            &&& after.last_check == Some(now)
            &&& after.last_success == Some(now)
            &&& after.last_error is None
            &&& after.consecutive_failures == 0
            &&& after.consecutive_successes == before.consecutive_successes + 1
            &&& after.name == before.name
            &&& after.status == app.checked(name, true, None, now).services[name].status
            &&& after.status == before.status ==> after.status_since == before.status_since
            &&& after.status != before.status ==> after.status_since == now
        }),
{
}

/// Which status a service has after a check: when it is healthy, when it is degraded, when it
/// is unhealthy, and that it is one of these.
pub proof fn law_status_after_check(
    app: AppStateView,
    name: Seq<char>,
    success: bool,
    error: Option<Seq<char>>,
    now: Timestamp,
)
    requires
        app.configs.contains_key(name),
        app.services.contains_key(name),
    ensures
        ({
            let config = app.configs[name];
            let before = app.services[name].status;
            let after = app.checked(name, success, error, now).services[name].status;
            let enough_good = app.services[name].consecutive_successes + 1
                >= config.healthy_threshold;
            let failures = app.services[name].consecutive_failures + 1;
            &&& after == ServiceStatus::Healthy <==> {
                ||| success && before == ServiceStatus::Unknown
                ||| success && before == ServiceStatus::Healthy
                ||| success && before == ServiceStatus::Degraded && enough_good
                ||| !success && before == ServiceStatus::Healthy && failures
                    < config.degraded_threshold
            }
            &&& after == ServiceStatus::Degraded <==> {
                ||| success && before == ServiceStatus::Degraded && !enough_good
                ||| success && before == ServiceStatus::Unhealthy && enough_good
                ||| !success && before == ServiceStatus::Healthy && failures
                    >= config.degraded_threshold
                ||| !success && before == ServiceStatus::Degraded && failures
                    < config.unhealthy_threshold
            }
            &&& after == ServiceStatus::Unhealthy <==> {
                ||| success && before == ServiceStatus::Unhealthy && !enough_good
                ||| !success && before == ServiceStatus::Unknown
                ||| !success && before == ServiceStatus::Unhealthy
                ||| !success && before == ServiceStatus::Degraded && failures
                    >= config.unhealthy_threshold
            }
            &&& after != ServiceStatus::Unknown
        }),
{
}

/// A result of a check tells the new status exactly where the status of the service changes, and
/// tells nothing of a service that is not there or not configured.
pub proof fn law_change_is_told(
    app: AppStateView,
    name: Seq<char>,
    success: bool,
    error: Option<Seq<char>>,
    now: Timestamp,
)
    ensures
        ({
            let after = app.checked(name, success, error, now);
            &&& app.configs.contains_key(name) && app.services.contains_key(name) ==> {
                &&& app.change(name, success) is Some <==> after.services[name].status
                    != app.services[name].status
                &&& app.change(name, success) is Some ==> app.change(name, success)->0
                    == after.services[name].status
            }
            &&& !app.configs.contains_key(name) || !app.services.contains_key(name)
                ==> app.change(name, success) is None
        }),
{
}

/// Whether changes are those before and one behind them, of which the oldest left where there
/// were a hundred.
pub open spec fn one_more(
    before: Seq<StateHistoryEntryView>,
    after: Seq<StateHistoryEntryView>,
    entry: StateHistoryEntryView,
) -> bool {
    let gone: int = if before.len() < 100 {
        0
    } else {
        1
    };
    &&& after.len() == before.len() + 1 - gone
    &&& after[after.len() - 1] == entry
    &&& forall|i: int| 0 <= i < after.len() - 1 ==> #[trigger] after[i] == before[i + gone]
}

/// A check that changes the status of a service is remembered with both statuses, its time and
/// its reason: how many successes there were in a row, or how many failures, and what the last
/// one told. One that changes nothing is not remembered.
pub proof fn law_check_is_remembered(
    app: AppStateView,
    name: Seq<char>,
    success: bool,
    error: Option<Seq<char>>,
    now: Timestamp,
)
    requires
        app.configs.contains_key(name),
        app.services.contains_key(name),
        app.history.contains_key(name),
    ensures
        ({
            let all = app.checked(name, success, error, now);
            let before = app.services[name];
            let after = all.services[name];
            let counted = if success {
                "连续 "@ + text::decimal(before.consecutive_successes + 1) + " 次检查成功"@
            } else {
                "连续 "@ + text::decimal(before.consecutive_failures + 1) + " 次检查失败: "@
            };
            let told = if success {
                Seq::empty()
            } else if error is Some {
                error->0
            } else {
                "未知错误"@
            };
            &&& all.history.contains_key(name)
            &&& after.status == before.status ==> all.history[name] == app.history[name]
            &&& after.status != before.status ==> one_more(
                app.history[name],
                all.history[name],
                StateHistoryEntryView {
                    from: before.status,
                    to: after.status,
                    timestamp: now,
                    reason: counted + told,
                },
            )
        }),
{
    let before = app.services[name];
    if success {
        let counted = "连续 "@ + text::decimal(before.consecutive_successes + 1) + " 次检查成功"@;
        assert(counted + Seq::empty() =~= counted);
    }
}

/// A sign of life that changes the status of a service is remembered with both statuses and its
/// time, and that it was a sign of life. One that changes nothing is not remembered.
pub proof fn law_beat_is_remembered(app: AppStateView, name: Seq<char>, now: Timestamp)
    requires
        app.configs.contains_key(name),
        app.services.contains_key(name),
        app.history.contains_key(name),
    ensures
        ({
            let all = app.beaten(name, now);
            let before = app.services[name];
            let after = all.services[name];
            &&& all.history.contains_key(name)
            &&& after.status == before.status ==> all.history[name] == app.history[name]
            &&& after.status != before.status ==> one_more(
                app.history[name],
                all.history[name],
                StateHistoryEntryView {
                    from: before.status,
                    to: after.status,
                    timestamp: now,
                    reason: "收到心跳"@,
                },
            )
        }),
{
}

/// A service without a history gets none from a check or a sign of life.
pub proof fn law_no_history_stays_none(
    app: AppStateView,
    name: Seq<char>,
    success: bool,
    error: Option<Seq<char>>,
    now: Timestamp,
)
    requires
        !app.history.contains_key(name),
    ensures
        app.checked(name, success, error, now).history == app.history,
        app.beaten(name, now).history == app.history,
{
}

/// The changes of a service are told in the opposite order to that in which they came, and none
/// of a service without a history.
pub proof fn law_changes_turn_history_round(app: AppStateView, name: Seq<char>, i: int)
    ensures
        app.history.contains_key(name) ==> app.changes(name).len() == app.history[name].len(),
        app.history.contains_key(name) && 0 <= i < app.history[name].len() ==> app.changes(name)[i]
            == app.history[name][app.history[name].len() - 1 - i],
        !app.history.contains_key(name) ==> app.changes(name).len() == 0,
{
}

/// At the start there is nothing. A service that is added is there with its configuration, a
/// new state and no changes. One that is removed is not there. Another configuration of a
/// service is there afterwards.
pub proof fn law_services_come_and_go(
    app: AppStateView,
    config: ServiceConfigView,
    name: Seq<char>,
    now: Timestamp,
)
    ensures
        !AppStateView::empty().services.contains_key(name),
        !AppStateView::empty().configs.contains_key(name),
        !AppStateView::empty().history.contains_key(name),
        ({
            let after = app.added(config, now);
            &&& after.services.contains_key(config.name)
            &&& after.configs.contains_key(config.name)
            &&& after.history.contains_key(config.name)
            &&& after.services[config.name] == ServiceStateView::fresh(config.name, now)
            &&& after.configs[config.name] == config
            &&& after.history[config.name].len() == 0
        }),
        !app.removed(name).services.contains_key(name),
        !app.removed(name).configs.contains_key(name),
        !app.removed(name).history.contains_key(name),
        app.reconfigured(config).configs.contains_key(config.name),
        app.reconfigured(config).configs[config.name] == config,
        app.reconfigured(config).services == app.services,
        app.reconfigured(config).history == app.history,
{
}

/// How many of some services have a status.
pub open spec fn tally(app: AppStateView, names: Seq<Seq<char>>, status: ServiceStatus) -> nat
    decreases names.len(),
{
    if names.len() == 0 {
        0
    } else {
        let here: nat = if app.services[names.last()].status == status {
            1
        } else {
            0
        };
        tally(app, names.drop_last(), status) + here
    }
}

/// A report counts each service once, under its status.
pub proof fn law_report_counts(app: AppStateView, names: Seq<Seq<char>>, status: ServiceStatus)
    requires
        names.no_duplicates(),
        forall|name: Seq<char>| #[trigger]
            names.contains(name) <==> app.services.contains_key(name),
    ensures
        app.count(status) == tally(app, names, status),
{
    assert(names.to_set() =~= app.services.dom());
    lemma_tally(app, names, status);
}

/// Services that are listed one after the other are counted like the set of them.
proof fn lemma_tally(app: AppStateView, names: Seq<Seq<char>>, status: ServiceStatus)
    requires
        names.no_duplicates(),
    ensures
        app.count_in(names.to_set(), status) == tally(app, names, status),
        names.to_set().finite(),
    decreases names.len(),
{
    if names.len() == 0 {
        assert(names.to_set() =~= Set::empty());
        app.lemma_count_none();
    } else {
        let fewer = names.drop_last();
        let name = names.last();
        assert forall|i: int, j: int| 0 <= i < j < fewer.len() implies fewer[i] != fewer[j] by {
            assert(fewer[i] == names[i] && fewer[j] == names[j]);
        }
        lemma_tally(app, fewer, status);
        assert(!fewer.to_set().contains(name)) by {
            if fewer.contains(name) {
                let k = choose|k: int| 0 <= k < fewer.len() && fewer[k] == name;
                assert(names[k] == names[names.len() - 1]);
            }
        }
        app.lemma_count_more(fewer.to_set(), name);
        assert(names.to_set() =~= fewer.to_set().insert(name)) by {
            assert(names[names.len() - 1] == name);
            assert forall|other: Seq<char>| #[trigger] names.contains(other) && other
                != name implies fewer.contains(other) by {
                let k = choose|k: int| 0 <= k < names.len() && names[k] == other;
                assert(fewer[k] == other);
            }
            assert forall|other: Seq<char>| #[trigger] fewer.contains(
                other,
            ) implies names.contains(other) by {
                let k = choose|k: int| 0 <= k < fewer.len() && fewer[k] == other;
                assert(names[k] == other);
            }
        }
    }
}

/// One more result can be counted for a service as long as its run of such results is shorter
/// than the greatest number of 32 bits, and always where nothing is counted.
pub proof fn law_results_can_be_counted(app: AppStateView, name: Seq<char>, success: bool)
    ensures
        app.countable(name, success) <==> {
            ||| !app.configs.contains_key(name)
            ||| !app.services.contains_key(name)
            ||| success && app.services[name].consecutive_successes + 1 <= 0xffff_ffff
            ||| !success && app.services[name].consecutive_failures + 1 <= 0xffff_ffff
        },
{
}

/// The last sign of life of a service can be looked for where a failure can be counted and its
/// timeout is a time span, and always where it does not have to give any.
pub proof fn law_services_can_be_watched(app: AppStateView, name: Seq<char>)
    ensures
        app.watchable(name) <==> {
            ||| !app.configs.contains_key(name)
            ||| !app.services.contains_key(name)
            ||| !app.configs[name].passive
            ||| clock::is_span(app.configs[name].heartbeat_timeout_secs)
                && app.services[name].consecutive_failures + 1 <= 0xffff_ffff
        },
{
}

} // verus!
