//! The protocol engine: the correlator, the dispatcher, the session registry
//! and the store, driven by the messages that the daemon sends, the calls of
//! the consumer, the clock and the loss of the connection.

use vstd::prelude::*;
use crate::correlator::{
    expired_at, has_id, lemma_without_id_subset, live_at, without_id, CallError, Correlator,
    PendingRequest, Purpose,
};
use crate::dispatcher::{
    after_publish, classifies, classify, lemma_published_is_newest, topic_of, DaemonEvent,
    Dispatcher, Received, Subscription, Topic,
};
use crate::json::{member, text_of, JsonValue};
use crate::protocol::{app_id_from_result, member_or_null, route, routes_to, Inbound};
use crate::request::{frame_request, request_text, DaemonRequest};
use crate::session::{
    acknowledged, has_app, is_terminal, lemma_acknowledged_cases, lemma_session_of_after,
    lemma_session_of_unique, session_of, sessions_after, Session, SessionCommand, SessionError,
    SessionInput, SessionManager, SessionState,
};
use crate::store::{
    empty_view, lemma_reduce_session_of, reduce, reduce_all, Action, State, Store,
};

verus! {

/// A call resolved: its id, and its result or why it failed.
#[derive(Debug, PartialEq, Eq)]
pub struct Completion {
    pub id: u64,
    pub outcome: Result<JsonValue, CallError>,
}

/// What the pending request for `r` is for.
pub open spec fn purpose_of(r: DaemonRequest) -> Purpose {
    match r {
        DaemonRequest::LaunchApp { device_id, .. } => Purpose::Launch { device_id },
        DaemonRequest::RestartApp { app_id, full_restart, .. } => Purpose::Lifecycle {
            app_id,
            command: if full_restart {
                SessionCommand::Restart
            } else {
                SessionCommand::Reload
            },
        },
        DaemonRequest::StopApp { app_id } => Purpose::Lifecycle {
            app_id,
            command: SessionCommand::Stop,
        },
        DaemonRequest::DetachApp { app_id } => Purpose::Lifecycle {
            app_id,
            command: SessionCommand::Detach,
        },
        _ => Purpose::Plain,
    }
}

fn purpose(r: &DaemonRequest) -> (p: Purpose)
    ensures
        p == purpose_of(*r),
{
    match r {
        DaemonRequest::LaunchApp { device_id, .. } => Purpose::Launch {
            device_id: device_id.clone(),
        },
        DaemonRequest::RestartApp { app_id, full_restart, .. } => Purpose::Lifecycle {
            app_id: app_id.clone(),
            command: if *full_restart {
                SessionCommand::Restart
            } else {
                SessionCommand::Reload
            },
        },
        DaemonRequest::StopApp { app_id } => Purpose::Lifecycle {
            app_id: app_id.clone(),
            command: SessionCommand::Stop,
        },
        DaemonRequest::DetachApp { app_id } => Purpose::Lifecycle {
            app_id: app_id.clone(),
            command: SessionCommand::Detach,
        },
        _ => Purpose::Plain,
    }
}

/// The sessions after the answer `outcome` to a request for `purpose`: a
/// launch that names a new application id adds its session, in `Starting`; a
/// lifecycle command is confirmed, or corrected where it failed.
pub open spec fn settled(
    ss: Seq<Session>,
    root: Option<String>,
    purpose: Purpose,
    outcome: Result<JsonValue, CallError>,
) -> Seq<Session> {
    match purpose {
        Purpose::Plain => ss,
        Purpose::Launch { device_id } => match outcome {
            Ok(res) => match member(res, "appId"@) {
                Some(JsonValue::Str(app_id)) => if has_app(ss, app_id@) {
                    ss
                } else {
                    ss.push(
                        Session {
                            app_id,
                            device_id,
                            project_root: root,
                            state: SessionState::Starting,
                            pending: None,
                        },
                    )
                },
                _ => ss,
            },
            Err(_) => ss,
        },
        Purpose::Lifecycle { app_id, .. } => sessions_after(
            ss,
            app_id@,
            if outcome is Ok {
                SessionInput::CommandSucceeded
            } else {
                SessionInput::CommandFailed
            },
        ),
    }
}

/// The sessions after every request of `gone` timed out, in order.
pub open spec fn settled_all(ss: Seq<Session>, root: Option<String>, gone: Seq<PendingRequest>) -> Seq<
    Session,
>
    decreases gone.len(),
{
    if gone.len() == 0 {
        ss
    } else {
        settled(
            settled_all(ss, root, gone.drop_last()),
            root,
            gone.last().purpose,
            Err(CallError::Timeout),
        )
    }
}

/// The store action that records the session of `id` in `ss`, if there is
/// one.
pub open spec fn session_update(ss: Seq<Session>, id: Seq<char>) -> Seq<Action> {
    match session_of(ss, id) {
        Some(s) => seq![Action::UpsertSession { session: s }],
        None => Seq::empty(),
    }
}

/// The store actions that the event `e` sends, where `ss` are the sessions
/// after it: a device that comes or goes is added or removed, and the session
/// that an application event is about is recorded anew. No other event sends
/// any action.
pub open spec fn event_actions(e: DaemonEvent, ss: Seq<Session>) -> Seq<Action> {
    match e {
        DaemonEvent::DeviceAdded { device } => seq![Action::AddDevice { device }],
        DaemonEvent::DeviceRemoved { device } => seq![Action::RemoveDevice { device }],
        DaemonEvent::AppStart { app_id, .. } => session_update(ss, app_id@),
        DaemonEvent::AppStarted { app_id } => session_update(ss, app_id@),
        DaemonEvent::AppStop { app_id } => session_update(ss, app_id@),
        _ => Seq::empty(),
    }
}

/// The store actions that the answer `outcome` to a request for `purpose`
/// sends, where `ss` are the sessions after it: the session that it created
/// or moved is recorded anew.
pub open spec fn answer_actions(
    purpose: Purpose,
    outcome: Result<JsonValue, CallError>,
    ss: Seq<Session>,
) -> Seq<Action> {
    match purpose {
        Purpose::Plain => Seq::empty(),
        Purpose::Launch { .. } => match outcome {
            Ok(res) => match member(res, "appId"@) {
                Some(JsonValue::Str(app_id)) => session_update(ss, app_id@),
                _ => Seq::empty(),
            },
            Err(_) => Seq::empty(),
        },
        Purpose::Lifecycle { app_id, .. } => session_update(ss, app_id@),
    }
}

/// The session that the event `e` is about, and what it means for it.
pub open spec fn session_input_of(e: DaemonEvent) -> Option<(Seq<char>, SessionInput)> {
    match e {
        DaemonEvent::AppStart { app_id, .. } => Some((app_id@, SessionInput::StartEvent)),
        DaemonEvent::AppStarted { app_id } => Some((app_id@, SessionInput::StartedEvent)),
        DaemonEvent::AppStop { app_id } => Some((app_id@, SessionInput::StopEvent)),
        _ => None,
    }
}

pub open spec fn sessions_after_event(ss: Seq<Session>, e: DaemonEvent) -> Seq<Session> {
    match session_input_of(e) {
        Some((id, input)) => sessions_after(ss, id, input),
        None => ss,
    }
}

/// The whole engine. Every change of a session is also sent to the store as
/// an action, and so is every device that comes or goes.
pub struct Engine {
    correlator: Correlator,
    dispatcher: Dispatcher,
    registry: SessionManager,
    store: Store,
    /// Whether the calls that follow the daemon's readiness were handed out.
    started: bool,
}

impl Engine {
    pub closed spec fn pending(&self) -> Seq<PendingRequest> {
        self.correlator.table()
    }

    pub closed spec fn next_id(&self) -> u64 {
        self.correlator.next()
    }

    pub closed spec fn is_disconnected(&self) -> bool {
        self.correlator.is_disconnected()
    }

    pub closed spec fn sessions(&self) -> Seq<Session> {
        self.registry.sessions@
    }

    pub closed spec fn project_root(&self) -> Option<String> {
        self.registry.project_root
    }

    /// Every action sent to the store so far, in order.
    pub closed spec fn store_actions(&self) -> Seq<Action> {
        self.store.dispatched()
    }

    pub closed spec fn channel_kept(&self, t: Topic) -> Seq<DaemonEvent> {
        self.dispatcher.channel(t).kept()
    }

    pub closed spec fn channel_first(&self, t: Topic) -> u64 {
        self.dispatcher.channel(t).first()
    }

    /// Whether every topic keeps the same events as in `other`.
    pub open spec fn same_channels(&self, other: Engine) -> bool {
        forall|t: Topic|
            #[trigger] self.channel_kept(t) == other.channel_kept(t) && self.channel_first(t)
                == other.channel_first(t)
    }

    /// The sequence number that the next event published on `t` gets.
    pub closed spec fn channel_end(&self, t: Topic) -> int {
        self.dispatcher.channel(t).end()
    }

    /// The sessions of the state that the actions sent to the store make.
    pub closed spec fn store_sessions(&self) -> Seq<Session> {
        reduce_all(empty_view(), self.store.dispatched()).sessions
    }

    /// The store keeps, under every application id but `except`, the session
    /// that the registry has.
    pub closed spec fn agrees_but(&self, except: Option<Seq<char>>) -> bool {
        forall|id: Seq<char>|
            Some(id) != except ==> #[trigger] session_of(self.store_sessions(), id) == session_of(
                self.registry.sessions@,
                id,
            )
    }

    pub closed spec fn parts_wf(&self) -> bool {
        &&& self.correlator.wf()
        &&& self.dispatcher.wf()
        &&& self.registry.wf()
        &&& self.store.wf()
        &&& !self.store.is_shut_down()
    }

    pub closed spec fn wf(&self) -> bool {
        &&& self.parts_wf()
        &&& self.agrees_but(None)
    }

    /// A connected engine for the project at `project_root`, with nothing
    /// pending and no session.
    pub fn new(project_root: Option<String>) -> (r: Engine)
        ensures
            r.wf(),
            r.pending().len() == 0,
            r.next_id() == 1,
            !r.is_disconnected(),
            r.sessions().len() == 0,
            r.project_root() == project_root,
            !r.is_started(),
    {
        Engine {
            correlator: Correlator::new(),
            dispatcher: Dispatcher::new(),
            registry: SessionManager::new(project_root),
            store: Store::new(),
            started: false,
        }
    }

    /// Whether the calls that follow the daemon's readiness were handed out.
    pub closed spec fn is_started(&self) -> bool {
        self.started
    }

    /// The daemon announced that it is ready. The first time, this hands out
    /// the calls to make: enable device discovery and, where a project is
    /// open, ask for the platforms it supports. Any later time, none.
    pub fn startup_calls(&mut self) -> (r: Vec<DaemonRequest>)
        requires
            old(self).wf(),
        ensures
            final(self).wf(),
            final(self).is_started(),
            final(self).pending() == old(self).pending(),
            final(self).next_id() == old(self).next_id(),
            final(self).is_disconnected() == old(self).is_disconnected(),
            final(self).sessions() == old(self).sessions(),
            final(self).project_root() == old(self).project_root(),
            final(self).store_actions() == old(self).store_actions(),
            final(self).same_channels(*old(self)),
            old(self).is_started() ==> r@.len() == 0,
            !old(self).is_started() ==> match old(self).project_root() {
                Some(root) => r@ == seq![
                    DaemonRequest::DeviceEnable,
                    DaemonRequest::GetSupportedPlatforms { project_root: root },
                ],
                None => r@ == seq![DaemonRequest::DeviceEnable],
            },
    {
        let mut r: Vec<DaemonRequest> = Vec::new();
        if self.started {
            return r;
        }
        self.started = true;
        r.push(DaemonRequest::DeviceEnable);
        match &self.registry.project_root {
            Some(root) => {
                r.push(DaemonRequest::GetSupportedPlatforms { project_root: root.clone() });
            },
            None => {},
        }
        assert(r@ =~= match old(self).project_root() {
            Some(root) => seq![
                DaemonRequest::DeviceEnable,
                DaemonRequest::GetSupportedPlatforms { project_root: root },
            ],
            None => seq![DaemonRequest::DeviceEnable],
        });
        r
    }

    /// Every pending call has an id below the next one, so the id that a new
    /// call gets is never pending already.
    pub proof fn lemma_pending_below_next(&self)
        requires
            self.wf(),
        ensures
            forall|x: u64| has_id(self.pending(), x) ==> x < self.next_id(),
    {
        self.correlator.lemma_ids_below_next();
    }

    /// How many calls wait for an answer.
    pub fn pending_count(&self) -> (r: usize)
        ensures
            r == self.pending().len(),
    {
        self.correlator.pending_count()
    }

    /// The state of the session of `app_id`, if there is one.
    pub fn session_state(&self, app_id: &String) -> (r: Option<SessionState>)
        requires
            self.wf(),
        ensures
            r is None <==> !has_app(self.sessions(), app_id@),
            forall|i: int|
                0 <= i < self.sessions().len() && self.sessions()[i].app_id@ == app_id@ ==> r
                    == Some(self.sessions()[i].state),
    {
        self.registry.state_of(app_id)
    }

    /// Sends the current record of the session of `app_id` to the store.
    fn sync_session(&mut self, app_id: &String)
        requires
            old(self).parts_wf(),
            old(self).agrees_but(Some(app_id@)),
            has_app(old(self).registry.sessions@, app_id@) || old(self).agrees_but(None),
        ensures
            final(self).wf(),
            final(self).correlator == old(self).correlator,
            final(self).dispatcher == old(self).dispatcher,
            final(self).registry == old(self).registry,
            final(self).store_actions() == old(self).store_actions() + session_update(
                old(self).registry.sessions@,
                app_id@,
            ),
    {
        proof {
            lemma_session_of_unique(self.registry.sessions@, app_id@);
        }
        match self.registry.position(app_id) {
            Some(i) => {
                let s = self.registry.sessions[i].duplicate();
                let ghost d = self.store.dispatched();
                let ghost a = Action::UpsertSession { session: s };
                self.store.dispatch(Action::UpsertSession { session: s });
                proof {
                    assert(self.store.dispatched() =~= d + session_update(
                        self.registry.sessions@,
                        app_id@,
                    ));
                    assert forall|id: Seq<char>| #[trigger]
                        session_of(self.store_sessions(), id) == session_of(
                            self.registry.sessions@,
                            id,
                        ) by {
                        lemma_dispatch_sessions(d, a, id);
                    }
                }
            },
            None => {
                assert(self.store.dispatched() =~= old(self).store.dispatched() + session_update(
                    old(self).registry.sessions@,
                    app_id@,
                ));
            },
        }
    }

    /// Makes the call `req`, sent at `now`, which may wait `timeout`
    /// milliseconds: a lifecycle command first moves its session to the
    /// command's state, then the call gets the next id and is pending. The
    /// answer holds the id and the line to send.
    pub fn call(&mut self, req: &DaemonRequest, now: u64, timeout: u64) -> (r: Result<
        (u64, String),
        CallError,
    >)
        requires
            old(self).wf(),
        ensures
            final(self).wf(),
            final(self).is_disconnected() == old(self).is_disconnected(),
            final(self).project_root() == old(self).project_root(),
            old(self).is_disconnected() ==> r == Err::<(u64, String), CallError>(
                CallError::Transport,
            ),
            !old(self).is_disconnected() && old(self).next_id() == u64::MAX ==> r == Err::<
                (u64, String),
                CallError,
            >(CallError::IdsExhausted),
            r is Err ==> final(self).pending() == old(self).pending() && final(self).next_id()
                == old(self).next_id() && final(self).sessions() == old(self).sessions(),
            !old(self).is_disconnected() && old(self).next_id() < u64::MAX ==> match purpose_of(
                *req,
            ) {
                Purpose::Lifecycle { app_id, command } => {
                    let after = sessions_after(
                        old(self).sessions(),
                        app_id@,
                        SessionInput::Command(command),
                    );
                    if after == old(self).sessions() {
                        r matches Err(CallError::Rejected(_))
                    } else {
                        r is Ok && final(self).sessions() == after
                    }
                },
                _ => r is Ok && final(self).sessions() == old(self).sessions(),
            },
            r matches Ok((id, line)) ==> {
                &&& id == old(self).next_id()
                &&& !has_id(old(self).pending(), id)
                &&& line@ == "["@ + request_text(id, *req) + "]\n"@
                &&& final(self).next_id() == id + 1
                &&& final(self).pending() == old(self).pending().push(
                    PendingRequest {
                        id,
                        deadline: if now as int + timeout as int <= u64::MAX {
                            (now + timeout) as u64
                        } else {
                            u64::MAX
                        },
                        purpose: purpose_of(*req),
                    },
                )
            },
    {
        match self.correlator.check() {
            Ok(()) => {},
            Err(e) => return Err(e),
        }
        let p = purpose(req);
        match &p {
            Purpose::Lifecycle { app_id, command } => {
                let ghost before = self.registry.sessions@;
                let ghost e0 = *self;
                let applied = self.registry.apply(app_id, SessionInput::Command(*command));
                proof {
                    lemma_apply_agrees(e0, *self, app_id@, SessionInput::Command(*command));
                }
                match applied {
                    Ok(()) => {
                        proof {
                            lemma_applied_changes(before, app_id@, SessionInput::Command(*command));
                        }
                        self.sync_session(app_id);
                    },
                    Err(e) => {
                        return Err(CallError::Rejected(e));
                    },
                }
            },
            _ => {},
        }
        match self.correlator.register(now, timeout, p) {
            Ok(id) => Ok((id, frame_request(id, req))),
            Err(e) => Err(e),
        }
    }
}

impl Engine {
    /// Acts on the answer `outcome` to a request for `p`.
    fn settle(&mut self, p: &Purpose, outcome: &Result<JsonValue, CallError>)
        requires
            old(self).wf(),
        ensures
            final(self).wf(),
            final(self).correlator == old(self).correlator,
            final(self).dispatcher == old(self).dispatcher,
            final(self).project_root() == old(self).project_root(),
            final(self).sessions() == settled(
                old(self).sessions(),
                old(self).project_root(),
                *p,
                *outcome,
            ),
            final(self).store_actions() == old(self).store_actions() + answer_actions(
                *p,
                *outcome,
                final(self).sessions(),
            ),
    {
        match p {
            Purpose::Plain => {},
            Purpose::Launch { device_id } => {
                if let Ok(res) = outcome {
                    if let Some(app_id) = app_id_from_result(res) {
                        proof {
                            assert(member(*res, "appId"@) == Some(JsonValue::Str(app_id)));
                        }
                        let key = app_id.clone();
                        let ghost e0 = *self;
                        let ghost new_id = app_id@;
                        let _ = self.registry.run_new_app(app_id, device_id.clone());
                        proof {
                            lemma_launch_agrees(e0, *self, new_id);
                        }
                        self.sync_session(&key);
                    }
                }
            },
            Purpose::Lifecycle { app_id, .. } => {
                let input = if outcome.is_ok() {
                    SessionInput::CommandSucceeded
                } else {
                    SessionInput::CommandFailed
                };
                let ghost e0 = *self;
                let _ = self.registry.apply(app_id, input);
                proof {
                    lemma_apply_agrees(e0, *self, app_id@, input);
                }
                self.sync_session(app_id);
            },
        }
    }

    /// Acts on a notification: the session it is about moves, a device that
    /// comes or goes is sent to the store, and the event is published on its
    /// topic.
    fn on_event(&mut self, e: DaemonEvent)
        requires
            old(self).wf(),
        ensures
            final(self).wf(),
            final(self).correlator == old(self).correlator,
            final(self).project_root() == old(self).project_root(),
            final(self).sessions() == sessions_after_event(old(self).sessions(), e),
            final(self).store_actions() == old(self).store_actions() + event_actions(
                e,
                final(self).sessions(),
            ),
            forall|t: Topic|
                t != topic_of(e) ==> #[trigger] final(self).dispatcher.channel(t) == old(
                    self,
                ).dispatcher.channel(t),
            ({
                let before = old(self).dispatcher.channel(topic_of(e));
                let after = final(self).dispatcher.channel(topic_of(e));
                &&& after.bound() == before.bound()
                &&& before.end() < u64::MAX ==> (after.kept(), after.first() as int)
                    == after_publish(before.kept(), before.first(), before.bound(), e)
                &&& before.end() == u64::MAX ==> after == before
            }),
    {
        match &e {
            DaemonEvent::AppStart { app_id, .. } => {
                let ghost e0 = *self;
                let _ = self.registry.apply(app_id, SessionInput::StartEvent);
                proof {
                    lemma_apply_agrees(e0, *self, app_id@, SessionInput::StartEvent);
                }
                self.sync_session(app_id);
            },
            DaemonEvent::AppStarted { app_id } => {
                let ghost e0 = *self;
                let _ = self.registry.apply(app_id, SessionInput::StartedEvent);
                proof {
                    lemma_apply_agrees(e0, *self, app_id@, SessionInput::StartedEvent);
                }
                self.sync_session(app_id);
            },
            DaemonEvent::AppStop { app_id } => {
                let ghost e0 = *self;
                let _ = self.registry.apply(app_id, SessionInput::StopEvent);
                proof {
                    lemma_apply_agrees(e0, *self, app_id@, SessionInput::StopEvent);
                }
                self.sync_session(app_id);
            },
            DaemonEvent::DeviceAdded { device } => {
                let ghost d = self.store.dispatched();
                let dev = device.duplicate();
                let ghost a = Action::AddDevice { device: dev };
                self.store.dispatch(Action::AddDevice { device: dev });
                proof {
                    assert forall|id: Seq<char>| #[trigger]
                        session_of(self.store_sessions(), id) == session_of(
                            self.registry.sessions@,
                            id,
                        ) by {
                        lemma_dispatch_sessions(d, a, id);
                    }
                }
            },
            DaemonEvent::DeviceRemoved { device } => {
                let ghost d = self.store.dispatched();
                let dev = device.duplicate();
                let ghost a = Action::RemoveDevice { device: dev };
                self.store.dispatch(Action::RemoveDevice { device: dev });
                proof {
                    assert forall|id: Seq<char>| #[trigger]
                        session_of(self.store_sessions(), id) == session_of(
                            self.registry.sessions@,
                            id,
                        ) by {
                        lemma_dispatch_sessions(d, a, id);
                    }
                }
            },
            _ => {},
        }
        self.dispatcher.publish(e);
    }

    /// Takes one inbound message. An answer to a pending call resolves it, and
    /// is handed back; an answer to an id that is not pending is dropped. A
    /// notification is decoded and acted upon. A malformed message is dropped.
    pub fn receive(&mut self, msg: JsonValue) -> (r: Option<Completion>)
        requires
            old(self).wf(),
        ensures
            final(self).wf(),
            final(self).next_id() == old(self).next_id(),
            final(self).is_disconnected() == old(self).is_disconnected(),
            final(self).project_root() == old(self).project_root(),
            match member(msg, "id"@) {
                Some(JsonValue::UInt(id)) => {
                    &&& final(self).pending() == without_id(old(self).pending(), id)
                    &&& r is Some <==> has_id(old(self).pending(), id)
                    &&& r matches Some(c) ==> c.id == id && routes_to(
                        msg,
                        Inbound::Response { id, outcome: c.outcome },
                    ) && forall|e: PendingRequest|
                        #![trigger old(self).pending().contains(e)]
                        old(self).pending().contains(e) && e.id == id ==> final(self).sessions()
                            == settled(
                            old(self).sessions(),
                            old(self).project_root(),
                            e.purpose,
                            c.outcome,
                        ) && final(self).store_actions() == old(self).store_actions()
                            + answer_actions(e.purpose, c.outcome, final(self).sessions())
                    &&& r is None ==> final(self).sessions() == old(self).sessions() && final(self).store_actions() == old(self).store_actions()
                },
                Some(_) => r is None && final(self).pending() == old(self).pending()
                    && final(self).sessions() == old(self).sessions() && final(self).same_channels(
                    *old(self),
                ) && final(self).store_actions() == old(self).store_actions(),
                None => {
                    &&& r is None
                    &&& final(self).pending() == old(self).pending()
                    &&& text_of(member(msg, "event"@)) is None ==> final(self).sessions() == old(
                        self,
                    ).sessions() && final(self).same_channels(*old(self)) && final(self).store_actions() == old(self).store_actions()
                    &&& text_of(member(msg, "event"@)) matches Some(name) ==> exists|e: DaemonEvent|
                        #![trigger classifies(name, member_or_null(msg, "params"@), e)]
                        classifies(name, member_or_null(msg, "params"@), e) && final(self).sessions()
                            == sessions_after_event(old(self).sessions(), e) && final(self).store_actions() == old(self).store_actions() + event_actions(
                            e,
                            final(self).sessions(),
                        ) && (old(
                            self,
                        ).channel_end(topic_of(e)) < u64::MAX ==> final(self).channel_kept(
                            topic_of(e),
                        ).len() > 0 && final(self).channel_kept(topic_of(e)).last() == e)
                            && forall|t: Topic|
                            t != topic_of(e) ==> #[trigger] final(self).channel_kept(t) == old(
                                self,
                            ).channel_kept(t) && final(self).channel_first(t) == old(
                                self,
                            ).channel_first(t)
                },
            },
    {
        match route(msg) {
            Inbound::Response { id, outcome } => {
                let ghost table = self.correlator.table();
                match self.correlator.complete(id) {
                    None => None,
                    Some(entry) => {
                        self.settle(&entry.purpose, &outcome);
                        Some(Completion { id, outcome })
                    },
                }
            },
            Inbound::Event { name, params } => {
                let e = classify(&name, &params);
                let ghost ch = self.dispatcher.channel(topic_of(e));
                proof {
                    self.dispatcher.lemma_channels_wf();
                    if ch.end() < u64::MAX {
                        lemma_published_is_newest(ch, e);
                    }
                }
                self.on_event(e);
                None
            },
            Inbound::Malformed => None,
        }
    }
}

impl Engine {
    /// The clock reads `now`: every call whose deadline has come resolves with
    /// [`CallError::Timeout`], oldest first, and a lifecycle command among them
    /// is corrected in the registry.
    pub fn tick(&mut self, now: u64) -> (r: Vec<Completion>)
        requires
            old(self).wf(),
        ensures
            final(self).wf(),
            final(self).next_id() == old(self).next_id(),
            final(self).is_disconnected() == old(self).is_disconnected(),
            final(self).project_root() == old(self).project_root(),
            final(self).pending() == live_at(old(self).pending(), now),
            r@.len() == expired_at(old(self).pending(), now).len(),
            forall|i: int|
                0 <= i < r@.len() ==> (#[trigger] r@[i]).id == expired_at(old(self).pending(), now)[i].id
                    && r@[i].outcome == Err::<JsonValue, CallError>(CallError::Timeout),
            final(self).sessions() == settled_all(
                old(self).sessions(),
                old(self).project_root(),
                expired_at(old(self).pending(), now),
            ),
    {
        let gone = self.correlator.expire(now);
        let mut out: Vec<Completion> = Vec::new();
        let mut i: usize = 0;
        while i < gone.len()
            invariant
                self.wf(),
                self.pending() == live_at(old(self).pending(), now),
                self.next_id() == old(self).next_id(),
                self.is_disconnected() == old(self).is_disconnected(),
                i <= gone@.len(),
                gone@ == expired_at(old(self).pending(), now),
                self.project_root() == old(self).project_root(),
                out@.len() == i,
                forall|k: int|
                    0 <= k < i ==> (#[trigger] out@[k]).id == gone@[k].id && out@[k].outcome
                        == Err::<JsonValue, CallError>(CallError::Timeout),
                self.sessions() == settled_all(
                    old(self).sessions(),
                    old(self).project_root(),
                    gone@.take(i as int),
                ),
            decreases gone@.len() - i,
        {
            let timeout: Result<JsonValue, CallError> = Err(CallError::Timeout);
            self.settle(&gone[i].purpose, &timeout);
            proof {
                assert(gone@.take(i + 1).drop_last() == gone@.take(i as int));
            }
            out.push(Completion { id: gone[i].id, outcome: Err(CallError::Timeout) });
            i = i + 1;
        }
        proof {
            assert(gone@.take(gone@.len() as int) == gone@);
        }
        out
    }

    /// The daemon exited or a pipe broke: every pending call resolves with
    /// [`CallError::Transport`], oldest first, every session becomes `Failed`,
    /// subscribers of the connection topic learn of it, and no call is taken
    /// any more.
    pub fn disconnect(&mut self) -> (r: Vec<Completion>)
        requires
            old(self).wf(),
        ensures
            final(self).wf(),
            final(self).is_disconnected(),
            final(self).pending().len() == 0,
            final(self).project_root() == old(self).project_root(),
            r@.len() == old(self).pending().len(),
            forall|i: int|
                0 <= i < r@.len() ==> (#[trigger] r@[i]).id == old(self).pending()[i].id
                    && r@[i].outcome == Err::<JsonValue, CallError>(CallError::Transport),
            final(self).sessions().len() == old(self).sessions().len(),
            forall|i: int|
                0 <= i < final(self).sessions().len() ==> #[trigger] final(self).sessions()[i] == (
                Session { state: SessionState::Failed, pending: None, ..old(self).sessions()[i] }),
            old(self).channel_end(Topic::Connection) < u64::MAX ==> final(self).channel_kept(
                Topic::Connection,
            ).len() > 0 && final(self).channel_kept(Topic::Connection).last()
                == DaemonEvent::Disconnected,
    {
        let gone = self.correlator.fail_all();
        let mut out: Vec<Completion> = Vec::new();
        let mut i: usize = 0;
        while i < gone.len()
            invariant
                i <= gone@.len(),
                gone@ == old(self).pending(),
                out@.len() == i,
                forall|k: int|
                    0 <= k < i ==> (#[trigger] out@[k]).id == gone@[k].id && out@[k].outcome
                        == Err::<JsonValue, CallError>(CallError::Transport),
            decreases gone@.len() - i,
        {
            out.push(Completion { id: gone[i].id, outcome: Err(CallError::Transport) });
            i = i + 1;
        }
        let ghost before = self.registry.sessions@;
        proof {
            assert forall|id: Seq<char>| #[trigger]
                session_of(self.store_sessions(), id) == session_of(before, id) by {
                assert(self.agrees_but(None));
            }
        }
        self.registry.disconnect();
        let ghost after = self.registry.sessions@;
        proof {
            assert forall|k: int| 0 <= k < after.len() implies #[trigger] after[k].app_id
                == before[k].app_id by {
                assert(after[k] == (Session {
                    state: SessionState::Failed,
                    pending: None,
                    ..before[k]
                }));
            }
        }
        let mut j: usize = 0;
        while j < self.registry.sessions.len()
            invariant
                self.parts_wf(),
                self.dispatcher == old(self).dispatcher,
                self.registry.sessions@ == after,
                after.len() == before.len(),
                j <= after.len(),
                forall|k: int| 0 <= k < after.len() ==> #[trigger] after[k].app_id == before[k].app_id,
                forall|id: Seq<char>|
                    among_first(after, j as int, id) ==> #[trigger] session_of(
                        self.store_sessions(),
                        id,
                    ) == session_of(after, id),
                forall|id: Seq<char>|
                    !among_first(after, j as int, id) ==> #[trigger] session_of(
                        self.store_sessions(),
                        id,
                    ) == session_of(before, id),
                crate::session::ids_unique(before),
                self.correlator.is_disconnected(),
                self.correlator.table().len() == 0,
                self.project_root() == old(self).project_root(),
                self.sessions().len() == old(self).sessions().len(),
                forall|k: int|
                    0 <= k < self.sessions().len() ==> #[trigger] self.sessions()[k] == (Session {
                        state: SessionState::Failed,
                        pending: None,
                        ..old(self).sessions()[k]
                    }),
            decreases self.registry.sessions@.len() - j,
        {
            let s = self.registry.sessions[j].duplicate();
            let ghost d = self.store.dispatched();
            let ghost prev = *self;
            let ghost a = Action::UpsertSession { session: s };
            self.store.dispatch(Action::UpsertSession { session: s });
            proof {
                lemma_session_of_unique(after, s.app_id@);
                assert forall|id: Seq<char>| among_first(after, j + 1, id) implies #[trigger] session_of(
                    self.store_sessions(),
                    id,
                ) == session_of(after, id) by {
                    lemma_dispatch_sessions(d, a, id);
                    if id != s.app_id@ {
                        let k = choose|k: int| 0 <= k < j + 1 && after[k].app_id@ == id;
                        assert(among_first(after, j as int, id));
                        assert(session_of(prev.store_sessions(), id) == session_of(after, id));
                    }
                }
                assert forall|id: Seq<char>| !among_first(after, j + 1, id) implies #[trigger] session_of(
                    self.store_sessions(),
                    id,
                ) == session_of(before, id) by {
                    lemma_dispatch_sessions(d, a, id);
                    assert(after[j as int].app_id@ != id);
                    assert(!among_first(after, j as int, id));
                    assert(session_of(prev.store_sessions(), id) == session_of(before, id));
                }
            }
            j = j + 1;
        }
        proof {
            assert forall|id: Seq<char>| #[trigger]
                session_of(self.store_sessions(), id) == session_of(self.registry.sessions@, id) by {
                if !among_first(after, after.len() as int, id) {
                    lemma_session_of_unique(after, id);
                    lemma_session_of_unique(before, id);
                    if has_app(before, id) {
                        let k = choose|k: int| 0 <= k < before.len() && before[k].app_id@ == id;
                        assert(after[k].app_id == before[k].app_id);
                    }
                }
            }
        }
        proof {
            self.dispatcher.lemma_channels_wf();
            if self.dispatcher.channel(Topic::Connection).end() < u64::MAX {
                lemma_published_is_newest(
                    self.dispatcher.channel(Topic::Connection),
                    DaemonEvent::Disconnected,
                );
            }
        }
        self.dispatcher.publish(DaemonEvent::Disconnected);
        out
    }

    /// A subscription to `t` that reads every event published on it from now
    /// on.
    pub fn subscribe(&self, t: Topic) -> (r: Subscription)
        requires
            self.wf(),
        ensures
            r.topic == t,
            r.next == self.channel_end(t),
    {
        self.dispatcher.subscribe(t)
    }

    /// The next event for `sub` on its topic.
    pub fn recv(&self, sub: &mut Subscription) -> (r: Received)
        requires
            self.wf(),
        ensures
            final(sub).topic == old(sub).topic,
            ({
                let t = old(sub).topic;
                let first = self.channel_first(t);
                let kept = self.channel_kept(t);
                &&& old(sub).next < first ==> r == Received::Lagged((first - old(sub).next) as u64)
                    && final(sub).next == first
                &&& first <= old(sub).next < self.channel_end(t) ==> r == Received::Event(
                    kept[old(sub).next - first],
                ) && final(sub).next == old(sub).next + 1
                &&& old(sub).next >= self.channel_end(t) ==> r == Received::Empty && *final(sub)
                    == *old(sub)
            }),
    {
        self.dispatcher.recv(sub)
    }

    /// Applies the actions sent to the store so far, in order, and returns a
    /// snapshot of the state they make. Its sessions are those of the
    /// registry: the same session under every application id.
    pub fn snapshot(&mut self) -> (r: State)
        requires
            old(self).wf(),
        ensures
            final(self).wf(),
            final(self).pending() == old(self).pending(),
            final(self).next_id() == old(self).next_id(),
            final(self).is_disconnected() == old(self).is_disconnected(),
            final(self).sessions() == old(self).sessions(),
            final(self).project_root() == old(self).project_root(),
            final(self).store_actions() == old(self).store_actions(),
            r@ == reduce_all(empty_view(), old(self).store_actions()),
            forall|id: Seq<char>|
                #[trigger] session_of(r.sessions@, id) == session_of(final(self).sessions(), id),
    {
        self.store.run_pending();
        let r = self.store.get_state();
        proof {
            assert forall|id: Seq<char>| #[trigger]
                session_of(r.sessions@, id) == session_of(self.sessions(), id) by {
                assert(session_of(self.store_sessions(), id) == session_of(self.registry.sessions@, id));
            }
        }
        r
    }

    /// The consumer acknowledges the session of `app_id`, which must have
    /// reached a terminal state: it leaves the registry and the store.
    pub fn acknowledge(&mut self, app_id: &String) -> (r: Result<Session, SessionError>)
        requires
            old(self).wf(),
        ensures
            final(self).wf(),
            final(self).pending() == old(self).pending(),
            final(self).project_root() == old(self).project_root(),
            acknowledged(old(self).sessions(), app_id@, r, final(self).sessions()),
    {
        let ghost e0 = *self;
        let r = self.registry.acknowledge(app_id);
        let ghost ss = e0.registry.sessions@;
        proof {
            lemma_acknowledged_cases(ss, app_id@, r, self.registry.sessions@);
        }
        if r.is_ok() {
            let ghost d = self.store.dispatched();
            let ghost a = Action::RemoveSession { app_id: *app_id };
            self.store.dispatch(Action::RemoveSession { app_id: app_id.clone() });
            proof {
                let i = choose|i: int|
                    0 <= i < ss.len() && ss[i].app_id@ == app_id@ && is_terminal(ss[i].state)
                        && self.registry.sessions@ == ss.remove(i);
                assert forall|id: Seq<char>| #[trigger]
                    session_of(self.store_sessions(), id) == session_of(self.registry.sessions@, id) by {
                    lemma_dispatch_sessions(d, a, id);
                    lemma_session_of_remove(ss, i, id);
                    assert(session_of(e0.store_sessions(), id) == session_of(ss, id));
                }
            }
        } else {
            proof {
                assert(self.registry.sessions@ == ss);
                assert forall|id: Seq<char>| #[trigger]
                    session_of(self.store_sessions(), id) == session_of(self.registry.sessions@, id) by {
                    assert(session_of(e0.store_sessions(), id) == session_of(ss, id));
                }
            }
        }
        r
    }
}

/// The table of pending requests after the messages `msgs`, in order: each
/// answer takes its id out.
pub open spec fn after_messages(p: Seq<PendingRequest>, msgs: Seq<JsonValue>) -> Seq<PendingRequest>
    decreases msgs.len(),
{
    if msgs.len() == 0 {
        p
    } else {
        let before = after_messages(p, msgs.drop_last());
        match member(msgs.last(), "id"@) {
            Some(JsonValue::UInt(id)) => without_id(before, id),
            _ => before,
        }
    }
}

/// The ids of the calls that the messages `msgs` resolve, in order: those of
/// the answers whose id was pending when they came.
pub open spec fn answered(p: Seq<PendingRequest>, msgs: Seq<JsonValue>) -> Seq<u64>
    decreases msgs.len(),
{
    if msgs.len() == 0 {
        Seq::empty()
    } else {
        let before = after_messages(p, msgs.drop_last());
        let prev = answered(p, msgs.drop_last());
        match member(msgs.last(), "id"@) {
            Some(JsonValue::UInt(id)) => if has_id(before, id) {
                prev.push(id)
            } else {
                prev
            },
            _ => prev,
        }
    }
}

/// A frame that is not a JSON array of messages.
#[derive(Debug, Clone, Copy, PartialEq, Eq)]
pub struct ProtocolError;

impl Engine {
    /// Takes one frame, a JSON array of messages, and each of its messages in
    /// order, as [`Engine::receive`] does. Each call resolved is handed back,
    /// in order; it was pending before, and is no more. A frame that is no
    /// array is refused and changes nothing.
    pub fn receive_frame(&mut self, frame: JsonValue) -> (r: Result<Vec<Completion>, ProtocolError>)
        requires
            old(self).wf(),
        ensures
            final(self).wf(),
            final(self).next_id() == old(self).next_id(),
            final(self).is_disconnected() == old(self).is_disconnected(),
            final(self).project_root() == old(self).project_root(),
            r is Err <==> !(frame is Array),
            r is Err ==> *final(self) == *old(self),
            forall|x: u64| has_id(final(self).pending(), x) ==> has_id(old(self).pending(), x),
            r matches Ok(cs) ==> forall|k: int|
                0 <= k < cs@.len() ==> has_id(old(self).pending(), (#[trigger] cs@[k]).id)
                    && !has_id(final(self).pending(), cs@[k].id),
            frame matches JsonValue::Array(items) ==> final(self).pending() == after_messages(
                old(self).pending(),
                items@,
            ) && (r matches Ok(cs) && cs@.len() == answered(old(self).pending(), items@).len()
                && forall|k: int|
                0 <= k < cs@.len() ==> (#[trigger] cs@[k]).id == answered(
                    old(self).pending(),
                    items@,
                )[k]),
    {
        let mut items = match frame {
            JsonValue::Array(items) => items,
            _ => return Err(ProtocolError),
        };
        let ghost all = items@;
        let ghost start = self.pending();
        let mut out: Vec<Completion> = Vec::new();
        while items.len() > 0
            invariant
                self.wf(),
                all.len() >= items@.len(),
                items@ == all.skip(all.len() - items@.len()),
                self.pending() == after_messages(start, all.take(all.len() - items@.len())),
                out@.len() == answered(start, all.take(all.len() - items@.len())).len(),
                forall|k: int|
                    0 <= k < out@.len() ==> (#[trigger] out@[k]).id == answered(
                        start,
                        all.take(all.len() - items@.len()),
                    )[k],
                start == old(self).pending(),
                self.next_id() == old(self).next_id(),
                self.is_disconnected() == old(self).is_disconnected(),
                self.project_root() == old(self).project_root(),
                forall|x: u64| has_id(self.pending(), x) ==> has_id(old(self).pending(), x),
                forall|k: int|
                    0 <= k < out@.len() ==> has_id(old(self).pending(), (#[trigger] out@[k]).id)
                        && !has_id(self.pending(), out@[k].id),
            decreases items@.len(),
        {
            let ghost done = all.len() - items@.len();
            let ghost it = items@;
            let msg = items.remove(0);
            proof {
                assert(all.take(done + 1).drop_last() =~= all.take(done));
                assert(it[0] == all[done]);
                assert(all.take(done + 1).last() == msg);
                assert(items@ =~= all.skip(done + 1));
            }
            let ghost before = self.pending();
            let id_of_msg = match msg.get("id") {
                Some(JsonValue::UInt(n)) => Some(*n),
                _ => None,
            };
            let c = self.receive(msg);
            proof {
                if let Some(n) = id_of_msg {
                    lemma_without_id_subset(before, n);
                }
            }
            match c {
                Some(c) => out.push(c),
                None => {},
            }
        }
        Ok(out)
    }
}

/// After the registry applied an input to the session of `id`, the store
/// still agrees with it under every other id.
proof fn lemma_apply_agrees(e0: Engine, e1: Engine, id: Seq<char>, input: SessionInput)
    requires
        e0.wf(),
        e1.store == e0.store,
        e1.registry.sessions@ == sessions_after(e0.registry.sessions@, id, input),
    ensures
        e1.agrees_but(Some(id)),
        has_app(e1.registry.sessions@, id) || e1.agrees_but(None),
{
    lemma_session_of_after(e0.registry.sessions@, id, input, id);
    if !has_app(e0.registry.sessions@, id) {
        assert(e1.registry.sessions@ =~= e0.registry.sessions@);
    }
    assert forall|other: Seq<char>| Some(other) != Some(id) implies #[trigger] session_of(
        e1.store_sessions(),
        other,
    ) == session_of(e1.registry.sessions@, other) by {
        lemma_session_of_after(e0.registry.sessions@, id, input, other);
        assert(session_of(e0.store_sessions(), other) == session_of(e0.registry.sessions@, other));
    }
}

/// After the registry recorded a launched application `id`, or refused it as
/// known already, the store still agrees with it under every other id, and
/// the registry has `id`.
proof fn lemma_launch_agrees(e0: Engine, e1: Engine, id: Seq<char>)
    requires
        e0.wf(),
        e1.store == e0.store,
        has_app(e0.registry.sessions@, id) ==> e1.registry.sessions@ == e0.registry.sessions@,
        !has_app(e0.registry.sessions@, id) ==> exists|x: Session|
            x.app_id@ == id && e1.registry.sessions@ == e0.registry.sessions@.push(x),
    ensures
        e1.agrees_but(Some(id)),
        has_app(e1.registry.sessions@, id),
{
    let ss = e0.registry.sessions@;
    if !has_app(ss, id) {
        let x = choose|x: Session| x.app_id@ == id && e1.registry.sessions@ == ss.push(x);
        assert(ss.push(x).drop_last() =~= ss);
        assert(e1.registry.sessions@[ss.len() as int] == x);
    }
    assert forall|other: Seq<char>| Some(other) != Some(id) implies #[trigger] session_of(
        e1.store_sessions(),
        other,
    ) == session_of(e1.registry.sessions@, other) by {
        assert(session_of(e0.store_sessions(), other) == session_of(ss, other));
    }
}

/// Taking the session at `i` out of a registry with distinct ids leaves its
/// id without a session and every other id with the session it had.
proof fn lemma_session_of_remove(ss: Seq<Session>, i: int, other: Seq<char>)
    requires
        crate::session::ids_unique(ss),
        crate::session::ids_unique(ss.remove(i)),
        0 <= i < ss.len(),
    ensures
        session_of(ss.remove(i), other) == if other == ss[i].app_id@ {
            None
        } else {
            session_of(ss, other)
        },
{
    let t = ss.remove(i);
    lemma_session_of_unique(ss, other);
    lemma_session_of_unique(t, other);
    if other == ss[i].app_id@ {
        if has_app(t, other) {
            let k = choose|k: int| 0 <= k < t.len() && t[k].app_id@ == other;
            if k < i {
                assert(t[k] == ss[k]);
            } else {
                assert(t[k] == ss[k + 1]);
            }
        }
    } else {
        if has_app(ss, other) {
            let k = choose|k: int| 0 <= k < ss.len() && ss[k].app_id@ == other;
            if k < i {
                assert(t[k] == ss[k]);
            } else {
                assert(k != i);
                assert(t[k - 1] == ss[k]);
            }
        }
        if has_app(t, other) {
            let k = choose|k: int| 0 <= k < t.len() && t[k].app_id@ == other;
            if k < i {
                assert(t[k] == ss[k]);
            } else {
                assert(t[k] == ss[k + 1]);
            }
        }
    }
}

/// Whether one of the first `j` sessions of `ss` has id `id`.
pub open spec fn among_first(ss: Seq<Session>, j: int, id: Seq<char>) -> bool {
    exists|k: int| 0 <= k < j && ss[k].app_id@ == id
}

/// What the store's sessions become when one more action is sent.
proof fn lemma_dispatch_sessions(d: Seq<Action>, a: Action, id: Seq<char>)
    ensures
        session_of(reduce_all(empty_view(), d.push(a)).sessions, id) == session_of(
            reduce(reduce_all(empty_view(), d), a).sessions,
            id,
        ),
        session_of(reduce(reduce_all(empty_view(), d), a).sessions, id) == match a {
            Action::UpsertSession { session } => if id == session.app_id@ {
                Some(session)
            } else {
                session_of(reduce_all(empty_view(), d).sessions, id)
            },
            Action::RemoveSession { app_id } => if id == app_id@ {
                None
            } else {
                session_of(reduce_all(empty_view(), d).sessions, id)
            },
            _ => session_of(reduce_all(empty_view(), d).sessions, id),
        },
{
    assert(d.push(a).drop_last() =~= d);
    lemma_reduce_session_of(reduce_all(empty_view(), d), a, id);
}

/// Where the registry takes a command, the sessions change: every command
/// that a session accepts moves it to another state.
proof fn lemma_applied_changes(ss: Seq<Session>, id: Seq<char>, input: SessionInput)
    requires
        exists|i: int| 0 <= i < ss.len() && ss[i].app_id@ == id && ss[i].after(input) is Some,
        input is Command,
    ensures
        sessions_after(ss, id, input) != ss,
{
    let i = choose|i: int| 0 <= i < ss.len() && ss[i].app_id@ == id && ss[i].after(input) is Some;
    assert(sessions_after(ss, id, input)[i] != ss[i]);
}

} // verus!
