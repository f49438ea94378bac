//! What numbers, times and texts stand for.

use crate::clock;
use crate::clock::{TimeSpan, Timestamp};
use crate::config::{AlertConfig, WebhookConfig};
use crate::history;
use crate::models;
use crate::models::{
    DependencyNode, ServiceConfig, ServiceState, ServiceStateView, ServiceStatus,
    StateHistoryEntry,
};
use crate::monitor;
use crate::state::AppState;
use crate::text;
use vstd::prelude::*;

verus! {

/// The number that some decimal digits stand for.
pub open spec fn number(digits: Seq<char>) -> int
    decreases digits.len(),
{
    if digits.len() == 0 {
        0
    } else {
        number(digits.drop_last()) * 10 + (digits.last() as int - '0' as int)
    }
}

/// A number is written in digits only, stands for itself, and has no zero in front.
pub proof fn law_decimal(n: nat)
    ensures
        text::decimal(n).len() > 0,
        number(text::decimal(n)) == n,
        forall|i: int|
            0 <= i < text::decimal(n).len() ==> '0' <= (#[trigger] text::decimal(n)[i]) <= '9',
        n > 0 ==> text::decimal(n)[0] != '0',
        n == 0 ==> text::decimal(n) == seq!['0'],
    decreases n,
{
    reveal_with_fuel(number, 2);
    let digits = text::decimal(n);
    if n < 10 {
        assert(digits.drop_last() =~= Seq::empty());
    } else {
        law_decimal(n / 10);
        assert(digits.drop_last() =~= text::decimal(n / 10));
        assert(digits.last() as int == 48 + n % 10);
        assert forall|i: int| 0 <= i < digits.len() implies '0' <= (#[trigger] digits[i]) <= '9' by {
            if i < digits.len() - 1 {
                assert(digits[i] == text::decimal(n / 10)[i]);
            }
        }
        assert(digits[0] == text::decimal(n / 10)[0]);
    }
}

/// A negative number is written with a minus sign in front of its size, any other one without.
pub proof fn law_signed_decimal(n: int)
    ensures
        n >= 0 ==> text::signed_decimal(n) == text::decimal(n as nat),
        n < 0 ==> {
            &&& text::signed_decimal(n).len() > 1
            &&& text::signed_decimal(n)[0] == '-'
            &&& text::signed_decimal(n).drop_first() == text::decimal((-n) as nat)
        },
{
    reveal_strlit("-");
    if n < 0 {
        law_decimal((-n) as nat);
        assert(text::signed_decimal(n).drop_first() =~= text::decimal((-n) as nat));
    }
}

/// A count of seconds read as a signed number differs from it by nothing or by the size of the
/// 64 bit numbers, and fits the signed ones.
pub proof fn law_signed_seconds(secs: u64)
    ensures
        -0x8000_0000_0000_0000 <= clock::as_signed(secs) < 0x8000_0000_0000_0000,
        clock::as_signed(secs) == secs || clock::as_signed(secs) + 0x1_0000_0000_0000_0000 == secs,
{
}

/// A time span can be made of as many seconds as have a number of milliseconds in 64 bits.
pub proof fn law_spans(secs: u64)
    ensures
        clock::is_span(secs) <==> -0x7fff_ffff_ffff_ffff <= clock::as_signed(secs) * 1000
            <= 0x7fff_ffff_ffff_ffff,
{
}

/// The whole seconds in some nanoseconds point the same way, are no longer, and leave less than
/// a second over.
pub proof fn law_whole_seconds(nanos: int)
    ensures
        nanos >= 0 ==> {
            &&& clock::whole_secs(nanos) >= 0
            &&& 0 <= nanos - clock::whole_secs(nanos) * 1_000_000_000 < 1_000_000_000
        },
        nanos <= 0 ==> {
            &&& clock::whole_secs(nanos) <= 0
            &&& -1_000_000_000 < nanos - clock::whole_secs(nanos) * 1_000_000_000 <= 0
        },
{
}

/// A time span lasts its seconds and its nanoseconds.
pub proof fn law_span_length(span: TimeSpan)
    ensures
        span.length() == span.secs * 1_000_000_000 + span.nanos,
        span.valid() <==> {
            &&& -1_000_000_000 < span.nanos < 1_000_000_000
            &&& !(span.secs > 0 && span.nanos < 0)
            &&& !(span.secs < 0 && span.nanos > 0)
        },
{
}

/// The calendar goes from the start of the year -262143 to the end of the year 262142, and time
/// spans as far as milliseconds have numbers of 64 bits.
pub proof fn law_calendar(timestamp: Timestamp)
    ensures
        clock::MIN_SECS == -8_334_601_228_800,
        clock::MAX_SECS == 8_210_266_876_799,
        clock::MAX_SPAN_SECS == 9_223_372_036_854_775,
        timestamp.shown() <==> timestamp.valid() && timestamp.instant() >= 0,
{
}

/// A hundred changes of a service are kept.
pub proof fn law_room_for_changes()
    ensures
        history::HISTORY_CAPACITY == 100,
{
}

/// Services are in trouble that are unhealthy or degraded, and no others.
pub proof fn law_trouble(status: ServiceStatus)
    ensures
        status.troubled() <==> status == ServiceStatus::Unhealthy || status
            == ServiceStatus::Degraded,
        status == ServiceStatus::Unknown ==> status.text() == "unknown"@,
        status == ServiceStatus::Healthy ==> status.text() == "healthy"@,
        status == ServiceStatus::Degraded ==> status.text() == "degraded"@,
        status == ServiceStatus::Unhealthy ==> status.text() == "unhealthy"@,
{
}

/// Of a list of strings all texts count, in their order.
pub proof fn law_texts(list: Seq<String>, i: int)
    ensures
        models::texts(list).len() == list.len(),
        0 <= i < list.len() ==> models::texts(list)[i] == list[i]@,
{
}

/// An optional string holds a text where there is one.
pub proof fn law_optional_text(text: Option<String>)
    ensures
        models::optional_text(text) is Some <==> text is Some,
        text is Some ==> models::optional_text(text)->0 == text->0@,
{
}

/// All that is configured for a service counts.
pub proof fn law_config_counts(config: ServiceConfig)
    ensures
        config@.name == config.name@,
        config@.url == config.url@,
        config@.check_type == config.check_type,
        config@.check_path == config.check_path@,
        config@.interval_secs == config.interval_secs,
        config@.timeout_secs == config.timeout_secs,
        config@.unhealthy_threshold == config.unhealthy_threshold,
        config@.degraded_threshold == config.degraded_threshold,
        config@.healthy_threshold == config.healthy_threshold,
        config@.dependencies.len() == config.dependencies@.len(),
        forall|i: int|
            0 <= i < config.dependencies@.len() ==> config@.dependencies[i]
                == #[trigger] config.dependencies@[i]@,
        config@.passive == config.passive,
        config@.heartbeat_timeout_secs == config.heartbeat_timeout_secs,
        config@.alert_after_secs == config.alert_after_secs,
        config@.command is Some <==> config.command is Some,
        config.command is Some ==> config@.command->0 == config.command->0@,
        config@.command_args.len() == config.command_args@.len(),
        forall|i: int|
            0 <= i < config.command_args@.len() ==> config@.command_args[i]
                == #[trigger] config.command_args@[i]@,
{
}

/// What is configured for some services is what is configured for each, in their order.
pub proof fn law_settings(configs: Seq<ServiceConfig>, i: int)
    ensures
        monitor::settings(configs).len() == configs.len(),
        0 <= i < configs.len() ==> monitor::settings(configs)[i] == configs[i]@,
{
}

/// All that is known of a service counts.
pub proof fn law_state_counts(state: ServiceState)
    ensures
        state@.name == state.name@,
        state@.status == state.status,
        state@.last_check == state.last_check,
        state@.last_success == state.last_success,
        state@.last_error is Some <==> state.last_error is Some,
        state.last_error is Some ==> state@.last_error->0 == state.last_error->0@,
        state@.consecutive_successes == state.consecutive_successes,
        state@.consecutive_failures == state.consecutive_failures,
        state@.last_heartbeat == state.last_heartbeat,
        state@.status_since == state.status_since,
{
}

/// All of a change of status counts.
pub proof fn law_change_counts(entry: StateHistoryEntry)
    ensures
        entry@.from == entry.from,
        entry@.to == entry.to,
        entry@.timestamp == entry.timestamp,
        entry@.reason == entry.reason@,
{
}

/// All webhooks count, in their order, each with its address and its level.
pub proof fn law_webhooks_count(config: AlertConfig, webhook: WebhookConfig, i: int)
    ensures
        webhook@.url == webhook.url@,
        webhook@.level == webhook.level@,
        config@.len() == config.webhooks@.len(),
        0 <= i < config.webhooks@.len() ==> config@[i] == config.webhooks@[i]@,
{
}

/// A node is the tree with its name and its status, and with the trees of the nodes below it.
pub proof fn law_node_is_a_tree(node: DependencyNode, i: int)
    ensures
        node.tree().name == node.name@,
        node.tree().status == node.status,
        node.tree().children.len() == node.dependencies@.len(),
        0 <= i < node.dependencies@.len() ==> node.tree().children[i]
            == node.dependencies@[i].tree(),
{
}

/// What the monitor keeps of each service counts.
pub proof fn law_app_counts(app: AppState, name: Seq<char>)
    ensures
        app@.services.contains_key(name) <==> app.services@.contains_key(name),
        app@.configs.contains_key(name) <==> app.configs@.contains_key(name),
        app@.history.contains_key(name) <==> app.history@.contains_key(name),
        app.services@.contains_key(name) ==> app@.services[name] == app.services@[name]@,
        app.configs@.contains_key(name) ==> app@.configs[name] == app.configs@[name]@,
        app.history@.contains_key(name) ==> app@.history[name] == app.history@[name]@,
{
}

/// Of a new service nothing is known but its name and since when it is there.
pub proof fn law_fresh(name: Seq<char>, now: Timestamp)
    ensures
        ({
            let state = ServiceStateView::fresh(name, now);
            &&& state.name == name
            &&& state.status == ServiceStatus::Unknown
            &&& state.last_check is None
            &&& state.last_success is None
            &&& state.last_error is None
            &&& state.consecutive_successes == 0
            &&& state.consecutive_failures == 0
            &&& state.last_heartbeat is None
            &&& state.status_since == now
        }),
{
}

} // verus!
