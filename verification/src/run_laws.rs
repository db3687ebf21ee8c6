//! What holds of a run of the server: each step that it takes, and the words
//! that it ends with.
use vstd::prelude::*;

use crate::filtering::{AdblockRuntimeConfig, FilterConfig};
use crate::lifecycle;
use crate::lifecycle::{RunActionView, RunEventView, RunState, RunView};
use crate::number;
use crate::server;
use crate::server::Config;
use crate::settings;
use crate::settings::SettingsView;
use crate::startup;
use crate::startup::{AccountsView, DropActionView, DropState, SpanText};
use crate::text;

verus! {

/// Whether a run says the same of itself as before, wherever it stands.
pub open spec fn same_run(a: RunView, b: RunView) -> bool {
    a.validate == b.validate && a.shown_path == b.shown_path && a.version == b.version
}

/// A configuration that cannot be loaded ends a run at its start with the
/// words of the error, and one that can be but whose addresses cannot be read
/// with words about those.
pub proof fn law_loading_fails(
    before: RunView,
    event: RunEventView,
    after: RunView,
    action: RunActionView,
)
    requires
        before.state == RunState::Loading,
        event is Loaded,
        lifecycle::is_step(before, event, after, action),
    ensures
        event->Loaded_0 is Err ==> action == RunActionView::Finish(Some(event->Loaded_0->Err_0))
            && after.state == RunState::Over,
        event->Loaded_0 is Ok ==> ({
            let config = event->Loaded_0->Ok_0;
            let bad4 = exists|i: int|
                0 <= i < config.listen_addrs_ipv4@.len() && crate::ip::ipv4_text(
                    (#[trigger] config.listen_addrs_ipv4@[i])@,
                ) is None;
            let bad6 = exists|i: int|
                0 <= i < config.listen_addrs_ipv6@.len() && crate::ip::ipv6_text(
                    (#[trigger] config.listen_addrs_ipv6@[i])@,
                ) is None;
            &&& bad4 ==> after.state == RunState::Over && action == RunActionView::Finish(
                Some(
                    "failed to parse IPv4 addresses from "@ + before.shown_path + ": "@
                        + "invalid IPv4 address syntax"@,
                ),
            )
            &&& !bad4 && bad6 ==> after.state == RunState::Over && action == RunActionView::Finish(
                Some(
                    "failed to parse IPv6 addresses from "@ + before.shown_path + ": "@
                        + "invalid IPv6 address syntax"@,
                ),
            )
            &&& !bad4 && !bad6 ==> after.settings is Some && settings::are_settings_of(
                after.settings.unwrap(),
                config,
            )
            &&& !bad4 && !bad6 && before.validate ==> after.state == RunState::Over && action
                == RunActionView::Finish(None)
        }),
        same_run(before, after),
        after.bound == before.bound,
{
    if event->Loaded_0 is Ok {
        let config = event->Loaded_0->Ok_0;
        let t4 = text::texts(config.listen_addrs_ipv4@);
        let t6 = text::texts(config.listen_addrs_ipv6@);
        assert forall|i: int| 0 <= i < t4.len() implies #[trigger] t4[i]
            == config.listen_addrs_ipv4@[i]@ by {}
        assert forall|i: int| 0 <= i < t6.len() implies #[trigger] t6[i]
            == config.listen_addrs_ipv6@[i]@ by {}
        if exists|i: int|
            0 <= i < config.listen_addrs_ipv4@.len() && crate::ip::ipv4_text(
                (#[trigger] config.listen_addrs_ipv4@[i])@,
            ) is None {
            let i = choose|i: int|
                0 <= i < config.listen_addrs_ipv4@.len() && crate::ip::ipv4_text(
                    (#[trigger] config.listen_addrs_ipv4@[i])@,
                ) is None;
            assert(crate::ip::ipv4_text(t4[i]) is None);
        } else {
            assert(server::all_ipv4(t4)) by {
                assert forall|i: int| 0 <= i < t4.len() implies crate::ip::ipv4_text(
                    #[trigger] t4[i],
                ) is Some by {
                    assert(crate::ip::ipv4_text(config.listen_addrs_ipv4@[i]@) is Some);
                }
            }
        }
        if exists|i: int|
            0 <= i < config.listen_addrs_ipv6@.len() && crate::ip::ipv6_text(
                (#[trigger] config.listen_addrs_ipv6@[i])@,
            ) is None {
            let i = choose|i: int|
                0 <= i < config.listen_addrs_ipv6@.len() && crate::ip::ipv6_text(
                    (#[trigger] config.listen_addrs_ipv6@[i])@,
                ) is None;
            assert(crate::ip::ipv6_text(t6[i]) is None);
        } else {
            assert(server::all_ipv6(t6)) by {
                assert forall|i: int| 0 <= i < t6.len() implies crate::ip::ipv6_text(
                    #[trigger] t6[i],
                ) is Some by {
                    assert(crate::ip::ipv6_text(config.listen_addrs_ipv6@[i]@) is Some);
                }
            }
        }
    }
}

/// What comes next once `bound` sockets are bound: the next socket while there
/// is one; then the switch to the account where both its names are set; then
/// queries are served where neither is; and one name alone ends the run.
pub proof fn law_what_comes_next(s: SettingsView, bound: nat)
    ensures
        ({
            let (state, action) = lifecycle::next_action(s, bound);
            &&& bound < s.listeners().len() ==> state == RunState::Binding && action
                == RunActionView::Bind(s.listeners()[bound as int])
            &&& bound >= s.listeners().len() && s.user is Some && s.group is Some ==> state
                == RunState::Switching && action == RunActionView::Switch(
                s.user.unwrap(),
                s.group.unwrap(),
            )
            &&& bound >= s.listeners().len() && s.user is None && s.group is None ==> state
                == RunState::Serving && action == RunActionView::Serve
            &&& bound >= s.listeners().len() && s.user is Some != s.group is Some ==> state
                == RunState::Over && action == RunActionView::Finish(
                Some(
                    "both 'user' and 'group' must be set together when requesting privilege drop"@,
                ),
            )
        }),
{
}

/// A run that does not only validate goes on with what comes next, from the
/// first socket on.
pub proof fn law_a_run_starts(
    before: RunView,
    config: Config,
    after: RunView,
    action: RunActionView,
)
    requires
        before.state == RunState::Loading,
        before.bound == 0,
        !before.validate,
        server::all_ipv4(text::texts(config.listen_addrs_ipv4@)),
        server::all_ipv6(text::texts(config.listen_addrs_ipv6@)),
        lifecycle::is_step(before, RunEventView::Loaded(Ok(config)), after, action),
    ensures
        after.settings is Some,
        settings::are_settings_of(after.settings.unwrap(), config),
        (after.state, action) == lifecycle::next_action(after.settings.unwrap(), 0),
        after.bound == 0,
{
}

/// A socket that is bound is counted, and the run goes on with what comes
/// next; one that is not ends it with the words of the error.
pub proof fn law_a_socket_is_bound(
    before: RunView,
    event: RunEventView,
    after: RunView,
    action: RunActionView,
)
    requires
        before.state == RunState::Binding,
        event is Bound,
        before.settings is Some,
        lifecycle::is_step(before, event, after, action),
    ensures
        event->Bound_0 is None ==> after.bound == before.bound + 1 && (after.state, action)
            == lifecycle::next_action(before.settings.unwrap(), before.bound + 1),
        event->Bound_0 is Some ==> after.bound == before.bound && after.state == RunState::Over
            && action == RunActionView::Finish(event->Bound_0),
        after.settings == before.settings,
        same_run(before, after),
{
}

/// Behind the switch to the account queries are served, unless it failed.
pub proof fn law_the_account_is_switched(
    before: RunView,
    event: RunEventView,
    after: RunView,
    action: RunActionView,
)
    requires
        before.state == RunState::Switching,
        event is Switched,
        lifecycle::is_step(before, event, after, action),
    ensures
        event->Switched_0 is None ==> after.state == RunState::Serving && action
            == RunActionView::Serve,
        event->Switched_0 is Some ==> after.state == RunState::Over && action
            == RunActionView::Finish(event->Switched_0),
        after.settings == before.settings && after.bound == before.bound,
        same_run(before, after),
{
}

/// What signals do: the one to stop tells the server to, and the run waits for
/// its end; the one to reload has the configuration loaded again. The end of
/// the server, told or not, is the end of the run, with the server's error.
pub proof fn law_signals(
    before: RunView,
    event: RunEventView,
    after: RunView,
    action: RunActionView,
)
    requires
        before.state == RunState::Serving || before.state == RunState::Stopping,
        lifecycle::is_step(before, event, after, action),
    ensures
        event is Terminated ==> before.state == RunState::Serving && after.state
            == RunState::Stopping && action == RunActionView::Stop,
        event is HungUp ==> before.state == RunState::Serving && after.state == RunState::Reloading
            && action == RunActionView::Reload,
        event is Ended ==> after.state == RunState::Over,
        event == RunEventView::Ended(Ok(None)) ==> action == RunActionView::Finish(None),
        event is Ended && event->Ended_0 is Ok && event->Ended_0->Ok_0 is Some ==> action
            == RunActionView::Finish(
            Some(
                "Hickory DNS "@ + before.version + " has encountered an error: "@
                    + event->Ended_0->Ok_0.unwrap(),
            ),
        ),
        event is Ended && event->Ended_0 is Err ==> action == RunActionView::Finish(
            Some("server task failed: "@ + event->Ended_0->Err_0),
        ),
        event is Terminated || event is HungUp || event is Ended,
        after.settings == before.settings && after.bound == before.bound,
        same_run(before, after),
{
}

/// A reload that could not be loaded, or whose addresses cannot be read, is
/// refused with its words. Another is served where it changes no setting, and
/// is refused otherwise with the names of those that it changes.
pub proof fn law_reloads(
    before: RunView,
    event: RunEventView,
    after: RunView,
    action: RunActionView,
    loaded: SettingsView,
)
    requires
        before.state == RunState::Reloading,
        before.settings is Some,
        event is Loaded,
        lifecycle::is_step(before, event, after, action),
    ensures
        event->Loaded_0 is Err ==> action == RunActionView::Refuse(event->Loaded_0->Err_0),
        event->Loaded_0 is Ok && !server::all_ipv4(
            text::texts(event->Loaded_0->Ok_0.listen_addrs_ipv4@),
        ) ==> action == RunActionView::Refuse(
            "failed to parse IPv4 addresses from "@ + before.shown_path + ": "@
                + "invalid IPv4 address syntax"@,
        ),
        event->Loaded_0 is Ok && server::all_ipv4(
            text::texts(event->Loaded_0->Ok_0.listen_addrs_ipv4@),
        ) && !server::all_ipv6(text::texts(event->Loaded_0->Ok_0.listen_addrs_ipv6@)) ==> action
            == RunActionView::Refuse(
            "failed to parse IPv6 addresses from "@ + before.shown_path + ": "@
                + "invalid IPv6 address syntax"@,
        ),
        event->Loaded_0 is Ok && server::all_ipv4(
            text::texts(event->Loaded_0->Ok_0.listen_addrs_ipv4@),
        ) && server::all_ipv6(text::texts(event->Loaded_0->Ok_0.listen_addrs_ipv6@))
            && settings::are_settings_of(loaded, event->Loaded_0->Ok_0) ==> ({
            &&& loaded == before.settings.unwrap() ==> action == RunActionView::Replace
            &&& loaded != before.settings.unwrap() ==> action == RunActionView::Refuse(
                settings::refused_reload_text(
                    settings::changed_settings(before.settings.unwrap(), loaded),
                ),
            )
        }),
        after.state == RunState::Serving,
        after.bound == before.bound,
        same_run(before, after),
{
    if event->Loaded_0 is Ok {
        let config = event->Loaded_0->Ok_0;
        if server::all_ipv4(text::texts(config.listen_addrs_ipv4@)) && server::all_ipv6(
            text::texts(config.listen_addrs_ipv6@),
        ) && settings::are_settings_of(loaded, config) {
            let other = choose|other: SettingsView| #[trigger]
                settings::are_settings_of(other, config) && (after, action) == before.reloaded(
                    other,
                );
            settings::law_order_of_addresses(other.listen_addrs, loaded.listen_addrs);
            assert(other == loaded);
            settings::law_reload_keeps_settings(before.settings.unwrap(), loaded);
        }
    }
}

/// A run waits for what it acts on, and for nothing once it is over.
pub proof fn law_what_a_run_waits_for(state: RunState, event: RunEventView)
    ensures
        lifecycle::awaits(state, event) == match state {
            RunState::Loading => event is Loaded,
            RunState::Reloading => event is Loaded,
            RunState::Binding => event is Bound,
            RunState::Switching => event is Switched,
            RunState::Serving => !(event is Loaded) && !(event is Bound) && !(event is Switched),
            RunState::Stopping => event is Ended,
            RunState::Over => false,
        },
{
}

/// The filters that are on are fetched, in their order, and none by a run that
/// only validates.
pub proof fn law_filters_to_fetch(run: RunView, config: AdblockRuntimeConfig, f: FilterConfig)
    ensures
        run.validate ==> run.lists_to_fetch(config).len() == 0,
        !run.validate ==> run.lists_to_fetch(config).contains(f) == (config.filters@.contains(f)
            && f.enabled),
        !run.validate ==> run.lists_to_fetch(config) == config.filters@.filter(
            |g: FilterConfig| g.enabled,
        ),
        run.fetches_lists() == !run.validate,
{
    let on = |g: FilterConfig| g.enabled;
    let list = config.filters@;
    let kept = list.filter(on);
    if !run.validate {
        if kept.contains(f) {
            let i = choose|i: int| 0 <= i < kept.len() && kept[i] == f;
            list.lemma_filter_pred(on, i);
            list.lemma_filter_contains_rev(on, f);
        }
        if list.contains(f) && f.enabled {
            let i = choose|i: int| 0 <= i < list.len() && list[i] == f;
            list.lemma_filter_contains(on, i);
        }
    }
}

/// What a switch of the account fails with: a name that holds a NUL, the
/// user's before the group's; an account that is not known, the user before
/// the group; a switch that returned an error, the group's before the user's.
pub proof fn law_words_of_a_failed_switch(
    user: Seq<char>,
    group: Seq<char>,
    outside: AccountsView,
    n: nat,
)
    requires
        n >= 4,
        outside.uid == 0 || outside.euid == 0,
    ensures
        ({
            let done = startup::drop_course(user, group, DropState::Asking, outside, n);
            let last = done.last();
            let names = !user.contains('\0') && !group.contains('\0');
            let known = outside.user is Some && outside.group is Some;
            &&& user.contains('\0') ==> last == DropActionView::Finish(
                Some("unable to create CString for user "@ + user),
            )
            &&& !user.contains('\0') && group.contains('\0') ==> last == DropActionView::Finish(
                Some("unable to create CString for group "@ + group + ". Exiting."@),
            )
            &&& names && outside.user is None ==> last == DropActionView::Finish(
                Some("unable to lookup user '"@ + user + "'. Exiting."@),
            )
            &&& names && outside.user is Some && outside.group is None ==> last
                == DropActionView::Finish(
                Some("unable to lookup group '"@ + group + "'. Exiting."@),
            )
            &&& names && known && outside.setgid_rc < 0 ==> last == DropActionView::Finish(
                Some("unable to set gid. Exiting."@),
            )
            &&& names && known && outside.setgid_rc >= 0 && outside.setuid_rc < 0 ==> last
                == DropActionView::Finish(Some("unable to set uid. Exiting."@))
            &&& names && known && outside.setgid_rc >= 0 && outside.setuid_rc >= 0 ==> last
                == DropActionView::Finish(None)
        }),
{
    startup::law_privileges_are_dropped(user, group, outside, n);
}

/// A line of the log: the time, the level, the target and its line, the spans
/// from the outermost in, and what is said, between colons.
pub proof fn law_lines_of_the_log(
    secs: int,
    level: Seq<char>,
    target: Seq<char>,
    n: u32,
    spans: Seq<SpanText>,
    span: SpanText,
    fields: Seq<char>,
)
    ensures
        startup::log_text(secs, level, target, None, Seq::empty(), fields)
            == number::signed_decimal(secs) + seq![':'] + level + seq![':'] + target + seq![':']
            + fields + seq!['\n'],
        startup::log_text(secs, level, target, Some(n), spans, fields) == startup::log_text(
            secs,
            level,
            target + seq![':'] + number::decimal(n as nat),
            None,
            spans,
            fields,
        ),
        startup::spans_text(spans.push(span)) == startup::spans_text(spans) + seq![':']
            + span.name@ + if span.fields@.len() > 0 {
            seq!['{'] + span.fields@ + seq!['}']
        } else {
            Seq::empty()
        },
        startup::log_text(secs, level, target, None, spans, fields) == number::signed_decimal(secs)
            + seq![':'] + level + seq![':'] + target + startup::spans_text(spans) + seq![':']
            + fields + seq!['\n'],
{
    reveal_strlit(":");
    reveal_strlit("");
    reveal_strlit("{");
    reveal_strlit("}");
    reveal_strlit("\n");
    assert(":"@ =~= seq![':']);
    assert("{"@ =~= seq!['{']);
    assert("}"@ =~= seq!['}']);
    assert("\n"@ =~= seq!['\n']);
    assert(""@ =~= Seq::<char>::empty());
    assert(spans.push(span).drop_last() =~= spans);
    let none = Seq::<SpanText>::empty();
    let head = number::signed_decimal(secs) + seq![':'] + level + seq![':'] + target;
    assert(startup::spans_text(none) =~= Seq::<char>::empty());
    assert(startup::log_text(secs, level, target, None, none, fields) =~= head + seq![':'] + fields
        + seq!['\n']);
    assert(startup::log_text(secs, level, target, None, spans, fields) =~= head
        + startup::spans_text(spans) + seq![':'] + fields + seq!['\n']);
    assert(startup::spans_text(spans.push(span)) =~= startup::spans_text(spans) + seq![':']
        + span.name@ + if span.fields@.len() > 0 {
        seq!['{'] + span.fields@ + seq!['}']
    } else {
        Seq::empty()
    });
    let longer = target + seq![':'] + number::decimal(n as nat);
    assert(startup::log_text(secs, level, target, Some(n), spans, fields) =~= startup::log_text(
        secs,
        level,
        longer,
        None,
        spans,
        fields,
    ));
}

/// A number below zero is written with a minus sign before what the same
/// number above zero is written as.
pub proof fn law_signed_numbers(n: nat)
    ensures
        n > 0 ==> number::signed_decimal(-(n as int)) == seq!['-'] + number::decimal(n),
        number::signed_decimal(n as int) == number::decimal(n),
{
}

/// An account is switched to where both its names are set, none where neither
/// is, and one name alone is an error.
pub proof fn law_accounts(u: Seq<char>, g: Seq<char>)
    ensures
        startup::account_of(Some(u), Some(g)) == Ok::<Option<(Seq<char>, Seq<char>)>, Seq<char>>(
            Some((u, g)),
        ),
        startup::account_of(None, None) == Ok::<Option<(Seq<char>, Seq<char>)>, Seq<char>>(None),
        startup::account_of(Some(u), None) == Err::<Option<(Seq<char>, Seq<char>)>, Seq<char>>(
            "both 'user' and 'group' must be set together when requesting privilege drop"@,
        ),
        startup::account_of(None, Some(g)) == Err::<Option<(Seq<char>, Seq<char>)>, Seq<char>>(
            "both 'user' and 'group' must be set together when requesting privilege drop"@,
        ),
{
}

} // verus!
