//! The life of the server: it loads its configuration, binds its sockets,
//! switches to its account, serves, reloads, and stops.
use vstd::prelude::*;

use crate::filtering::{AdblockRuntimeConfig, FilterConfig};
use crate::ip::AddrParseError;
use crate::server;
use crate::server::Config;
use crate::settings;
use crate::settings::{Listener, ReloadSettings, SettingsView};
use crate::startup;
use crate::text;

verus! {

/// What is being waited for.
#[derive(Clone, Copy, Debug, PartialEq, Eq, Structural)]
pub enum RunState {
    /// The configuration.
    Loading,
    /// The next socket.
    Binding,
    /// The switch to the account.
    Switching,
    /// A signal, or the end of the server.
    Serving,
    /// The changed configuration.
    Reloading,
    /// The end of the server, which was told to stop.
    Stopping,
    /// Nothing any more.
    Over,
}

/// What comes of what was waited for.
#[derive(Debug)]
pub enum RunEvent {
    /// A configuration whose rules are compiled and whose zones are planned,
    /// or the words of an error.
    Loaded(Result<Config, String>),
    /// A bound socket, or the words of an error.
    Bound(Result<(), String>),
    /// The account, or the words of an error.
    Switched(Result<(), String>),
    /// The signal to stop.
    Terminated,
    /// The signal to reload.
    HungUp,
    /// What the server ended with, or the words about a task of it that
    /// failed.
    Ended(Result<Result<(), String>, String>),
}

/// What is to be done next.
#[derive(Debug)]
pub enum RunAction {
    /// A socket is to be bound.
    Bind(Listener),
    /// The process is to switch to this user and this group.
    Switch(String, String),
    /// Queries are to be served.
    Serve,
    /// The configuration is to be loaded again.
    Reload,
    /// The new configuration is to be served.
    Replace,
    /// The new configuration is refused with these words.
    Refuse(String),
    /// The server is to be told to stop.
    Stop,
    /// The process is to end.
    Finish(Result<(), String>),
}

/// What a `RunEvent` says.
pub enum RunEventView {
    Loaded(Result<Config, Seq<char>>),
    Bound(Option<Seq<char>>),
    Switched(Option<Seq<char>>),
    Terminated,
    HungUp,
    Ended(Result<Option<Seq<char>>, Seq<char>>),
}

/// What a `RunAction` says.
pub enum RunActionView {
    Bind(Listener),
    Switch(Seq<char>, Seq<char>),
    Serve,
    Reload,
    Replace,
    Refuse(Seq<char>),
    Stop,
    Finish(Option<Seq<char>>),
}

impl View for RunEvent {
    type V = RunEventView;

    open spec fn view(&self) -> RunEventView {
        match *self {
            RunEvent::Loaded(Ok(config)) => RunEventView::Loaded(Ok(config)),
            RunEvent::Loaded(Err(e)) => RunEventView::Loaded(Err(e@)),
            RunEvent::Bound(r) => RunEventView::Bound(startup::error_view(r)),
            RunEvent::Switched(r) => RunEventView::Switched(startup::error_view(r)),
            RunEvent::Terminated => RunEventView::Terminated,
            RunEvent::HungUp => RunEventView::HungUp,
            RunEvent::Ended(Ok(r)) => RunEventView::Ended(Ok(startup::error_view(r))),
            RunEvent::Ended(Err(e)) => RunEventView::Ended(Err(e@)),
        }
    }
}

impl View for RunAction {
    type V = RunActionView;

    open spec fn view(&self) -> RunActionView {
        match *self {
            RunAction::Bind(listener) => RunActionView::Bind(listener),
            RunAction::Switch(user, group) => RunActionView::Switch(user@, group@),
            RunAction::Serve => RunActionView::Serve,
            RunAction::Reload => RunActionView::Reload,
            RunAction::Replace => RunActionView::Replace,
            RunAction::Refuse(e) => RunActionView::Refuse(e@),
            RunAction::Stop => RunActionView::Stop,
            RunAction::Finish(r) => RunActionView::Finish(startup::error_view(r)),
        }
    }
}

/// Whether the event is one that is being waited for.
pub open spec fn awaits(state: RunState, event: RunEventView) -> bool {
    match state {
        RunState::Loading | RunState::Reloading => event is Loaded,
        RunState::Binding => event is Bound,
        RunState::Switching => event is Switched,
        RunState::Serving => event is Terminated || event is HungUp || event is Ended,
        RunState::Stopping => event is Ended,
        RunState::Over => false,
    }
}

/// What a run waits for.
#[derive(Debug)]
struct Place {
    state: RunState,
    /// How many sockets are bound.
    bound: usize,
}

/// How far a run has come.
#[derive(Debug)]
struct Progress {
    /// The settings, once the configuration is loaded.
    settings: Option<ReloadSettings>,
    place: Place,
}

/// A run of the server.
#[derive(Debug)]
pub struct Run {
    /// Whether the configuration is to be loaded and nothing else.
    validate: bool,
    /// The path of the configuration as it is shown.
    shown_path: String,
    /// The version that the server tells of itself.
    version: String,
    progress: Progress,
}

/// What a `Run` holds.
#[verifier::ext_equal]
pub struct RunView {
    pub validate: bool,
    pub shown_path: Seq<char>,
    pub version: Seq<char>,
    pub state: RunState,
    pub settings: Option<SettingsView>,
    pub bound: nat,
}

pub open spec fn settings_view(settings: Option<ReloadSettings>) -> Option<SettingsView> {
    match settings {
        Some(s) => Some(s@),
        None => None,
    }
}

impl View for Run {
    type V = RunView;

    closed spec fn view(&self) -> RunView {
        RunView {
            validate: self.validate,
            shown_path: self.shown_path@,
            version: self.version@,
            state: self.progress.place.state,
            settings: settings_view(self.progress.settings),
            bound: self.progress.place.bound as nat,
        }
    }
}

/// The words about addresses to listen on that cannot be read, where there
/// are any.
pub open spec fn unreadable_text(config: Config, shown_path: Seq<char>) -> Option<Seq<char>> {
    if !server::all_ipv4(text::texts(config.listen_addrs_ipv4@)) {
        Some(settings::bad_addrs_text(AddrParseError::Ipv4, shown_path))
    } else if !server::all_ipv6(text::texts(config.listen_addrs_ipv6@)) {
        Some(settings::bad_addrs_text(AddrParseError::Ipv6, shown_path))
    } else {
        None
    }
}

/// The words that a run ends with once the server has ended.
pub open spec fn ended_text(
    version: Seq<char>,
    ended: Result<Option<Seq<char>>, Seq<char>>,
) -> Option<Seq<char>> {
    match ended {
        Ok(Some(err)) => Some(startup::run_error_text(version, err)),
        Ok(None) => None,
        Err(err) => Some("server task failed: "@ + err),
    }
}

/// What is done with these settings once so many sockets are bound, and what is
/// waited for then: the sockets are bound one by one, then the account is
/// switched, if one is configured, then queries are served.
pub open spec fn next_action(s: SettingsView, bound: nat) -> (RunState, RunActionView) {
    if bound < s.listeners().len() {
        (RunState::Binding, RunActionView::Bind(s.listeners()[bound as int]))
    } else {
        match (s.user, s.group) {
            (Some(user), Some(group)) => (RunState::Switching, RunActionView::Switch(user, group)),
            (None, None) => (RunState::Serving, RunActionView::Serve),
            _ => (RunState::Over, RunActionView::Finish(Some(startup::half_account_text()))),
        }
    }
}

impl RunView {
    /// The sockets to listen on.
    pub open spec fn listeners(self) -> Seq<Listener> {
        match self.settings {
            Some(s) => s.listeners(),
            None => Seq::empty(),
        }
    }

    /// The settings are there once the configuration is, and while sockets
    /// are bound there is one left. From then on all are bound. A run that
    /// only validates waits for its configuration and for nothing else.
    pub open spec fn valid(self) -> bool {
        match self.state {
            RunState::Loading => self.settings is None && self.bound == 0,
            RunState::Binding => !self.validate && self.settings is Some && self.bound
                < self.listeners().len(),
            RunState::Over => self.validate ==> self.bound == 0,
            _ => !self.validate && self.settings is Some && self.bound == self.listeners().len(),
        }
    }

    /// Whether remote lists are requested when the configuration is loaded.
    pub open spec fn fetches_lists(self) -> bool {
        !self.validate
    }

    /// The remote lists that are requested when this configuration is loaded.
    pub open spec fn lists_to_fetch(self, config: AdblockRuntimeConfig) -> Seq<FilterConfig> {
        if self.fetches_lists() {
            config.filters@.filter(|f: FilterConfig| f.enabled)
        } else {
            Seq::empty()
        }
    }

    /// The run in another state.
    pub open spec fn moved(self, state: RunState) -> RunView {
        RunView { state, ..self }
    }

    /// The end of the run.
    pub open spec fn finished(self, err: Option<Seq<char>>) -> (RunView, RunActionView) {
        (self.moved(RunState::Over), RunActionView::Finish(err))
    }

    /// How a run with settings goes on.
    pub open spec fn going_on(self) -> (RunView, RunActionView) {
        let (state, action) = next_action(self.settings.unwrap(), self.bound);
        (self.moved(state), action)
    }

    /// How a run goes on that has loaded its configuration with these
    /// settings.
    pub open spec fn started(self, loaded: SettingsView) -> (RunView, RunActionView) {
        let run = RunView { settings: Some(loaded), ..self };
        if self.validate {
            run.finished(None)
        } else {
            run.going_on()
        }
    }

    /// How a run goes on that has loaded a changed configuration with these
    /// settings.
    pub open spec fn reloaded(self, loaded: SettingsView) -> (RunView, RunActionView) {
        let changed = settings::changed_settings(self.settings.unwrap(), loaded);
        if changed.len() == 0 {
            (
                RunView { settings: Some(loaded), state: RunState::Serving, ..self },
                RunActionView::Replace,
            )
        } else {
            (
                self.moved(RunState::Serving),
                RunActionView::Refuse(settings::refused_reload_text(changed)),
            )
        }
    }
}

/// Whether a run goes on to `after` with this action.
pub open spec fn is_step(
    before: RunView,
    event: RunEventView,
    after: RunView,
    action: RunActionView,
) -> bool {
    match (before.state, event) {
        (RunState::Loading, RunEventView::Loaded(Err(e))) => (after, action)
            == before.finished(Some(e)),
        (RunState::Loading, RunEventView::Loaded(Ok(config))) => match unreadable_text(
            config,
            before.shown_path,
        ) {
            Some(e) => (after, action) == before.finished(Some(e)),
            None => exists|loaded: SettingsView| #[trigger]
                settings::are_settings_of(loaded, config) && (after, action) == before.started(
                    loaded,
                ),
        },
        (RunState::Binding, RunEventView::Bound(None)) => (after, action) == (RunView {
            bound: before.bound + 1,
            ..before
        }).going_on(),
        (RunState::Binding, RunEventView::Bound(err)) => (after, action) == before.finished(err),
        (RunState::Switching, RunEventView::Switched(None)) => (after, action) == (
            before.moved(RunState::Serving),
            RunActionView::Serve,
        ),
        (RunState::Switching, RunEventView::Switched(err)) => (after, action)
            == before.finished(err),
        (RunState::Serving, RunEventView::Terminated) => (after, action) == (
            before.moved(RunState::Stopping),
            RunActionView::Stop,
        ),
        (RunState::Serving, RunEventView::HungUp) => (after, action) == (
            before.moved(RunState::Reloading),
            RunActionView::Reload,
        ),
        (RunState::Serving, RunEventView::Ended(ended)) | (
            RunState::Stopping,
            RunEventView::Ended(ended),
        ) => (after, action) == before.finished(ended_text(before.version, ended)),
        (RunState::Reloading, RunEventView::Loaded(Err(e))) => (after, action) == (
            before.moved(RunState::Serving),
            RunActionView::Refuse(e),
        ),
        (RunState::Reloading, RunEventView::Loaded(Ok(config))) => match unreadable_text(
            config,
            before.shown_path,
        ) {
            Some(e) => (after, action) == (
                before.moved(RunState::Serving),
                RunActionView::Refuse(e),
            ),
            None => exists|loaded: SettingsView| #[trigger]
                settings::are_settings_of(loaded, config) && (after, action) == before.reloaded(
                    loaded,
                ),
        },
        _ => false,
    }
}

/// What is to be done with these settings once so many sockets are bound, and
/// what is waited for then.
fn next_step(s: &ReloadSettings, bound: usize) -> (r: (RunState, RunAction))
    ensures
        (r.0, r.1@) == next_action(s@, bound as nat),
{
    let listeners = s.listeners();
    if bound < listeners.len() {
        return (RunState::Binding, RunAction::Bind(listeners[bound]));
    }
    match startup::privilege_plan(&s.user, &s.group) {
        Ok(Some((user, group))) => (
            RunState::Switching,
            RunAction::Switch(user.clone(), group.clone()),
        ),
        Ok(None) => (RunState::Serving, RunAction::Serve),
        Err(e) => (RunState::Over, RunAction::Finish(Err(e))),
    }
}

impl Run {
    #[verifier::type_invariant]
    spec fn is_valid(self) -> bool {
        self@.valid()
    }

    /// A run that waits for its configuration.
    pub fn new(validate: bool, shown_path: String, version: String) -> (r: Run)
        ensures
            r@ == (RunView {
                validate,
                shown_path: shown_path@,
                version: version@,
                state: RunState::Loading,
                settings: None,
                bound: 0,
            }),
            r@.valid(),
    {
        let place = Place { state: RunState::Loading, bound: 0 };
        Run { validate, shown_path, version, progress: Progress { settings: None, place } }
    }

    /// What is being waited for.
    pub fn state(&self) -> (r: RunState)
        ensures
            r == self@.state,
            self@.valid(),
    {
        proof {
            use_type_invariant(self);
        }
        self.progress.place.state
    }

    /// The settings, once the configuration is loaded.
    pub fn settings(&self) -> (r: Option<&ReloadSettings>)
        ensures
            match r {
                Some(s) => self@.settings == Some(s@),
                None => self@.settings is None,
            },
    {
        match &self.progress.settings {
            Some(s) => Some(s),
            None => None,
        }
    }

    /// How many sockets are bound.
    pub fn bound(&self) -> (r: usize)
        ensures
            r == self@.bound,
    {
        self.progress.place.bound
    }

    /// Whether remote lists are to be requested when the configuration is
    /// loaded.
    pub fn fetches_lists(&self) -> (r: bool)
        ensures
            r == self@.fetches_lists(),
    {
        !self.validate
    }

    /// The remote lists that are to be requested when this configuration is
    /// loaded: those that are enabled, or none where the run only validates.
    pub fn lists_to_fetch<'a>(&self, config: &'a AdblockRuntimeConfig) -> (r: Vec<
        &'a FilterConfig,
    >)
        ensures
            r@.map_values(|f: &FilterConfig| *f) == self@.lists_to_fetch(*config),
    {
        if self.fetches_lists() {
            config.enabled_filters()
        } else {
            let none: Vec<&'a FilterConfig> = Vec::new();
            assert(none@.map_values(|f: &FilterConfig| *f) =~= Seq::<FilterConfig>::empty());
            none
        }
    }

    /// Ends the run.
    fn finish(&mut self, result: Result<(), String>) -> (r: RunAction)
        ensures
            (final(self)@, r@) == old(self)@.finished(startup::error_view(result)),
    {
        proof {
            use_type_invariant(&*self);
        }
        self.progress.place.state = RunState::Over;
        RunAction::Finish(result)
    }

    /// Counts one more socket as bound and goes on.
    fn count_socket(&mut self) -> (r: RunAction)
        requires
            old(self)@.state == RunState::Binding,
        ensures
            is_step(old(self)@, RunEventView::Bound(None), final(self)@, r@),
    {
        proof {
            use_type_invariant(&*self);
        }
        let total: usize = match &self.progress.settings {
            Some(s) => s.listeners().len(),
            None => 0,
        };
        let bound: usize = if self.progress.place.bound < total {
            self.progress.place.bound + 1
        } else {
            total
        };
        let (state, action) = match &self.progress.settings {
            Some(s) => next_step(s, bound),
            None => (RunState::Over, RunAction::Finish(Ok(()))),
        };
        self.progress.place = Place { state, bound };
        action
    }

    /// Goes on with the configuration that was loaded first.
    fn start(&mut self, loaded: Result<Config, String>) -> (r: RunAction)
        requires
            old(self)@.state == RunState::Loading,
        ensures
            is_step(old(self)@, RunEvent::Loaded(loaded)@, final(self)@, r@),
    {
        proof {
            use_type_invariant(&*self);
        }
        let config = match loaded {
            Ok(config) => config,
            Err(e) => return self.finish(Err(e)),
        };
        match ReloadSettings::from_effective_config(&config, self.shown_path.as_str()) {
            Ok(new) => {
                assert(settings::are_settings_of(new@, config));
                let (state, action) = if self.validate {
                    (RunState::Over, RunAction::Finish(Ok(())))
                } else {
                    next_step(&new, 0)
                };
                self.progress = Progress { settings: Some(new), place: Place { state, bound: 0 } };
                action
            },
            Err(e) => self.finish(Err(e)),
        }
    }

    /// Goes on with a configuration that was loaded again.
    fn reload(&mut self, loaded: Result<Config, String>) -> (r: RunAction)
        requires
            old(self)@.state == RunState::Reloading,
        ensures
            is_step(old(self)@, RunEvent::Loaded(loaded)@, final(self)@, r@),
    {
        proof {
            use_type_invariant(&*self);
        }
        self.progress.place.state = RunState::Serving;
        let config = match loaded {
            Ok(config) => config,
            Err(e) => return RunAction::Refuse(e),
        };
        let new = match ReloadSettings::from_effective_config(&config, self.shown_path.as_str()) {
            Ok(new) => new,
            Err(e) => return RunAction::Refuse(e),
        };
        proof {
            assert(settings::are_settings_of(new@, config));
            settings::law_reload_keeps_settings(self@.settings.unwrap(), new@);
        }
        let safe = match &self.progress.settings {
            Some(active) => active.ensure_reload_safe(&new),
            None => Ok(()),
        };
        match safe {
            Ok(()) => {
                self.progress.settings = Some(new);
                RunAction::Replace
            },
            Err(e) => RunAction::Refuse(e),
        }
    }

    /// Goes on, once what was waited for is there.
    pub fn step(&mut self, event: RunEvent) -> (r: RunAction)
        requires
            awaits(old(self)@.state, event@),
        ensures
            is_step(old(self)@, event@, final(self)@, r@),
            old(self)@.valid(),
            final(self)@.valid(),
    {
        proof {
            use_type_invariant(&*self);
        }
        let action = match event {
            RunEvent::Loaded(loaded) => {
                if self.progress.place.state == RunState::Reloading {
                    self.reload(loaded)
                } else {
                    self.start(loaded)
                }
            },
            RunEvent::Bound(Ok(())) => self.count_socket(),
            RunEvent::Bound(Err(e)) => self.finish(Err(e)),
            RunEvent::Switched(Ok(())) => {
                self.progress.place.state = RunState::Serving;
                RunAction::Serve
            },
            RunEvent::Switched(Err(e)) => self.finish(Err(e)),
            RunEvent::Terminated => {
                self.progress.place.state = RunState::Stopping;
                RunAction::Stop
            },
            RunEvent::HungUp => {
                self.progress.place.state = RunState::Reloading;
                RunAction::Reload
            },
            RunEvent::Ended(Ok(result)) => {
                let result = startup::finish_server_run(self.version.as_str(), result);
                self.finish(result)
            },
            RunEvent::Ended(Err(err)) => {
                let mut message = "server task failed: ".to_owned();
                message.append(err.as_str());
                self.finish(Err(message))
            },
        };
        proof {
            use_type_invariant(&*self);
        }
        action
    }
}

proof fn lemma_going_on_is_valid(run: RunView)
    requires
        run.settings is Some,
        run.bound <= run.listeners().len(),
        !run.validate,
    ensures
        run.going_on().0.valid(),
{
}

proof fn lemma_start_is_valid(before: RunView, config: Config, after: RunView, action: RunActionView)
    requires
        before.valid(),
        before.state == RunState::Loading,
        is_step(before, RunEventView::Loaded(Ok(config)), after, action),
    ensures
        after.valid(),
{
    if unreadable_text(config, before.shown_path) is None {
        let loaded = choose|loaded: SettingsView| #[trigger]
            settings::are_settings_of(loaded, config) && (after, action) == before.started(
                loaded,
            );
        if !before.validate {
            lemma_going_on_is_valid(RunView { settings: Some(loaded), ..before });
        }
    }
}

proof fn lemma_reloaded(before: RunView, loaded: SettingsView)
    requires
        before.settings is Some,
    ensures
        before.reloaded(loaded).0 == before.moved(RunState::Serving),
{
    settings::law_reload_keeps_settings(before.settings.unwrap(), loaded);
}

proof fn lemma_reload_goes_on(
    before: RunView,
    config: Config,
    after: RunView,
    action: RunActionView,
)
    requires
        before.valid(),
        before.state == RunState::Reloading,
        is_step(before, RunEventView::Loaded(Ok(config)), after, action),
    ensures
        after == before.moved(RunState::Serving),
{
    if unreadable_text(config, before.shown_path) is None {
        let loaded = choose|loaded: SettingsView| #[trigger]
            settings::are_settings_of(loaded, config) && (after, action) == before.reloaded(
                loaded,
            );
        lemma_reloaded(before, loaded);
    }
}

/// A run stays valid whatever comes of what it waits for.
pub proof fn law_run_stays_valid(
    before: RunView,
    event: RunEventView,
    after: RunView,
    action: RunActionView,
)
    requires
        before.valid(),
        is_step(before, event, after, action),
    ensures
        after.valid(),
{
    match event {
        RunEventView::Loaded(Ok(config)) => {
            if before.state == RunState::Loading {
                lemma_start_is_valid(before, config, after, action);
            } else {
                lemma_reload_goes_on(before, config, after, action);
            }
        },
        RunEventView::Bound(None) => {
            lemma_going_on_is_valid(RunView { bound: before.bound + 1, ..before });
        },
        _ => {},
    }
}

/// A run that only validates requests no remote list, and it ends with its
/// configuration, well where that was loaded: no socket is bound and no
/// account is switched.
pub proof fn law_validation_ends(
    before: RunView,
    event: RunEventView,
    after: RunView,
    action: RunActionView,
)
    requires
        before.validate,
        before.valid(),
        is_step(before, event, after, action),
    ensures
        !before.fetches_lists(),
        forall|config: AdblockRuntimeConfig| #[trigger]
            before.lists_to_fetch(config) == Seq::<FilterConfig>::empty(),
        before.state == RunState::Loading,
        action is Finish,
        event matches RunEventView::Loaded(Ok(config)) ==> action == RunActionView::Finish(
            unreadable_text(config, before.shown_path),
        ),
        after.state == RunState::Over,
        after.bound == 0,
{
}

/// The account is switched, and queries are served, once every socket is
/// bound. Until then the next action is to bind the next one.
pub proof fn law_sockets_are_bound_first(
    before: RunView,
    event: RunEventView,
    after: RunView,
    action: RunActionView,
)
    requires
        before.valid(),
        is_step(before, event, after, action),
    ensures
        action is Switch || action is Serve ==> after.bound == after.listeners().len(),
        action matches RunActionView::Bind(listener) ==> after.bound < after.listeners().len()
            && listener == after.listeners()[after.bound as int],
{
}

/// Once they are there, the settings hold to the end: a reload does not change
/// them.
pub proof fn law_settings_hold(
    before: RunView,
    event: RunEventView,
    after: RunView,
    action: RunActionView,
)
    requires
        before.state != RunState::Loading,
        before.valid(),
        is_step(before, event, after, action),
    ensures
        after.settings == before.settings,
{
    if let (RunState::Reloading, RunEventView::Loaded(Ok(config))) = (before.state, event) {
        lemma_reload_goes_on(before, config, after, action);
    }
}

/// A reload never ends a run: it goes on serving, with the new configuration
/// or, where that is refused, as it was.
pub proof fn law_reload_goes_on(
    before: RunView,
    event: RunEventView,
    after: RunView,
    action: RunActionView,
)
    requires
        before.state == RunState::Reloading,
        before.valid(),
        is_step(before, event, after, action),
    ensures
        action is Replace || action is Refuse,
        after == before.moved(RunState::Serving),
{
    law_settings_hold(before, event, after, action);
}

} // verus!
