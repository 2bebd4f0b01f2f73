//! Per-application session lifecycles and the registry that holds them.

use vstd::prelude::*;

verus! {

/// Where one application session stands.
#[derive(Debug, Clone, Copy, PartialEq, Eq, Structural)]
pub enum SessionState {
    Starting,
    Running,
    Reloading,
    Stopping,
    Stopped,
    Detached,
    Failed,
}

/// A lifecycle command sent to the daemon on behalf of a session.
#[derive(Debug, Clone, Copy, PartialEq, Eq, Structural)]
pub enum SessionCommand {
    Reload,
    Restart,
    Stop,
    Detach,
}

/// What drives a session from one state to the next.
#[derive(Debug, Clone, Copy, PartialEq, Eq, Structural)]
pub enum SessionInput {
    /// The daemon announced that the application is starting (`app.start`).
    StartEvent,
    /// The daemon announced that the application runs (`app.started`).
    StartedEvent,
    /// A command was issued for the session.
    Command(SessionCommand),
    /// The pending command's request was answered without error.
    CommandSucceeded,
    /// The pending command's request failed (daemon error or timeout): a
    /// reload or restart falls back to `Running`; a stop or detach whose
    /// outcome is unknown leaves the session `Failed`.
    CommandFailed,
    /// The daemon announced that the application stopped (`app.stop`).
    StopEvent,
    /// The connection to the daemon was lost.
    Disconnect,
}

/// Why the registry refused an operation.
#[derive(Debug, Clone, Copy, PartialEq, Eq, Structural)]
pub enum SessionError {
    /// No session has the given application id.
    UnknownApp,
    /// A session with the given application id exists already.
    DuplicateApp,
    /// The input is not allowed in the session's current state.
    InvalidTransition,
    /// The session has not reached a terminal state.
    NotTerminal,
}

pub open spec fn is_terminal(s: SessionState) -> bool {
    s == SessionState::Stopped || s == SessionState::Detached || s == SessionState::Failed
}

/// The lifecycle as a transition function on (state, pending command). `None`
/// means that the input is not allowed there.
pub open spec fn step(
    state: SessionState,
    pending: Option<SessionCommand>,
    input: SessionInput,
) -> Option<(SessionState, Option<SessionCommand>)> {
    match input {
        SessionInput::StartEvent => if state == SessionState::Starting {
            Some((SessionState::Starting, pending))
        } else {
            None
        },
        SessionInput::StartedEvent => if state == SessionState::Starting {
            Some((SessionState::Running, None))
        } else {
            None
        },
        SessionInput::Command(c) => match c {
            SessionCommand::Reload | SessionCommand::Restart => if state
                == SessionState::Running {
                Some((SessionState::Reloading, Some(c)))
            } else {
                None
            },
            SessionCommand::Stop => if state == SessionState::Running || state
                == SessionState::Reloading {
                Some((SessionState::Stopping, Some(c)))
            } else {
                None
            },
            SessionCommand::Detach => if state == SessionState::Running {
                Some((SessionState::Stopping, Some(c)))
            } else {
                None
            },
        },
        SessionInput::CommandSucceeded => if state == SessionState::Reloading {
            Some((SessionState::Running, None))
        } else if state == SessionState::Stopping {
            Some((state, pending))
        } else {
            None
        },
        SessionInput::CommandFailed => if state == SessionState::Reloading {
            Some((SessionState::Running, None))
        } else if state == SessionState::Stopping {
            Some((SessionState::Failed, None))
        } else {
            None
        },
        SessionInput::StopEvent => if state == SessionState::Stopping && pending == Some(
            SessionCommand::Stop,
        ) {
            Some((SessionState::Stopped, None))
        } else if state == SessionState::Stopping && pending == Some(SessionCommand::Detach) {
            Some((SessionState::Detached, None))
        } else if is_terminal(state) {
            None
        } else {
            Some((SessionState::Failed, None))
        },
        SessionInput::Disconnect => Some((SessionState::Failed, None)),
    }
}

/// Where a session that stands at (`state`, `pending`) ends after `inputs`,
/// taken in order; an input that is not allowed changes nothing.
pub open spec fn run(
    state: SessionState,
    pending: Option<SessionCommand>,
    inputs: Seq<SessionInput>,
) -> (SessionState, Option<SessionCommand>)
    decreases inputs.len(),
{
    if inputs.len() == 0 {
        (state, pending)
    } else {
        let (s, p) = run(state, pending, inputs.drop_last());
        match step(s, p, inputs.last()) {
            Some(next) => next,
            None => (s, p),
        }
    }
}

/// The order that every session's history keeps, from its creation in
/// `Starting`: it is `Running` (or beyond) only after the daemon announced
/// that the application started; it is `Stopped` only after a stop command
/// was issued and the daemon announced the stop, and `Detached` only after a
/// detach command was issued and the daemon announced the stop.
pub proof fn lemma_lifecycle_order(inputs: Seq<SessionInput>)
    ensures
        ({
            let (st, p) = run(SessionState::Starting, None, inputs);
            &&& st != SessionState::Starting && st != SessionState::Failed ==> inputs.contains(
                SessionInput::StartedEvent,
            )
            &&& p == Some(SessionCommand::Stop) ==> inputs.contains(
                SessionInput::Command(SessionCommand::Stop),
            )
            &&& p == Some(SessionCommand::Detach) ==> inputs.contains(
                SessionInput::Command(SessionCommand::Detach),
            )
            &&& st == SessionState::Stopped ==> inputs.contains(
                SessionInput::Command(SessionCommand::Stop),
            ) && inputs.contains(SessionInput::StopEvent)
            &&& st == SessionState::Detached ==> inputs.contains(
                SessionInput::Command(SessionCommand::Detach),
            ) && inputs.contains(SessionInput::StopEvent)
        }),
    decreases inputs.len(),
{
    if inputs.len() > 0 {
        let init = inputs.drop_last();
        lemma_lifecycle_order(init);
        let last = inputs.last();
        assert(inputs[inputs.len() - 1] == last);
        assert forall|x: SessionInput| init.contains(x) implies inputs.contains(x) by {
            let k = choose|k: int| 0 <= k < init.len() && init[k] == x;
            assert(inputs[k] == x);
        }
    }
}

/// A session enters `Stopped` or `Detached` only from `Stopping`, with the
/// matching command pending, when the daemon announces the stop; and it
/// enters `Running` only from `Starting`, when the daemon announces the
/// start, or from `Reloading`.
pub proof fn lemma_terminal_entries(
    state: SessionState,
    pending: Option<SessionCommand>,
    input: SessionInput,
)
    ensures
        step(state, pending, input) matches Some((next, _)) ==> {
            &&& next == SessionState::Stopped && state != SessionState::Stopped ==> state
                == SessionState::Stopping && pending == Some(SessionCommand::Stop) && input
                == SessionInput::StopEvent
            &&& next == SessionState::Detached && state != SessionState::Detached ==> state
                == SessionState::Stopping && pending == Some(SessionCommand::Detach) && input
                == SessionInput::StopEvent
            &&& next == SessionState::Running && state != SessionState::Running && state
                != SessionState::Reloading ==> state == SessionState::Starting && input
                == SessionInput::StartedEvent
        },
        input == SessionInput::Disconnect ==> step(state, pending, input) == Some(
            (SessionState::Failed, None::<SessionCommand>),
        ),
{
}

/// The edges of the lifecycle: `Starting` to `Running`; `Running` to
/// `Reloading` and back; `Running` or `Reloading` to `Stopping`, for a stop or
/// detach, and on to `Stopped` or `Detached`; any state to `Failed`.
pub open spec fn is_edge(from: SessionState, to: SessionState) -> bool {
    ||| from == SessionState::Starting && to == SessionState::Running
    ||| from == SessionState::Running && to == SessionState::Reloading
    ||| from == SessionState::Reloading && to == SessionState::Running
    ||| (from == SessionState::Running || from == SessionState::Reloading) && to
        == SessionState::Stopping
    ||| from == SessionState::Stopping && (to == SessionState::Stopped || to
        == SessionState::Detached)
    ||| to == SessionState::Failed
}

/// Every change of state that an input makes follows an edge of the
/// lifecycle.
pub proof fn lemma_steps_follow_edges(
    state: SessionState,
    pending: Option<SessionCommand>,
    input: SessionInput,
)
    ensures
        step(state, pending, input) matches Some((next, _)) ==> next == state || is_edge(
            state,
            next,
        ),
{
}

/// One running application, identified by `app_id`.
#[derive(Debug, Clone, PartialEq, Eq)]
pub struct Session {
    pub app_id: String,
    pub device_id: String,
    pub project_root: Option<String>,
    pub state: SessionState,
    /// The command issued and not yet confirmed, if any.
    pub pending: Option<SessionCommand>,
}

impl Session {
    /// A fresh session in `Starting`.
    pub fn new(app_id: String, device_id: String, project_root: Option<String>) -> (r: Session)
        ensures
            r.app_id == app_id,
            r.device_id == device_id,
            r.project_root == project_root,
            r.state == SessionState::Starting,
            r.pending.is_none(),
    {
        Session { app_id, device_id, project_root, state: SessionState::Starting, pending: None }
    }

    /// A field-by-field copy.
    pub fn duplicate(&self) -> (r: Session)
        ensures
            r == *self,
    {
        let project_root = match &self.project_root {
            Some(p) => Some(p.clone()),
            None => None,
        };
        Session {
            app_id: self.app_id.clone(),
            device_id: self.device_id.clone(),
            project_root,
            state: self.state,
            pending: self.pending,
        }
    }

    pub open spec fn after(self, input: SessionInput) -> Option<Session> {
        match step(self.state, self.pending, input) {
            Some((st, p)) => Some(Session { state: st, pending: p, ..self }),
            None => None,
        }
    }

    /// Feeds one input to the session; an input that is not allowed leaves it
    /// unchanged.
    pub fn apply(&mut self, input: SessionInput) -> (r: Result<(), SessionError>)
        ensures
            old(self).after(input) is Some ==> r is Ok && *final(self) == old(
                self,
            ).after(input)->Some_0,
            old(self).after(input) is None ==> r == Err::<(), SessionError>(
                SessionError::InvalidTransition,
            ) && *final(self) == *old(self),
    {
        let next = next_state(self.state, self.pending, input);
        match next {
            Some((st, p)) => {
                self.state = st;
                self.pending = p;
                Ok(())
            },
            None => Err(SessionError::InvalidTransition),
        }
    }
}

/// The transition function, executable.
pub fn next_state(state: SessionState, pending: Option<SessionCommand>, input: SessionInput) -> (r:
    Option<(SessionState, Option<SessionCommand>)>)
    ensures
        r == step(state, pending, input),
{
    match input {
        SessionInput::StartEvent => if state == SessionState::Starting {
            Some((SessionState::Starting, pending))
        } else {
            None
        },
        SessionInput::StartedEvent => if state == SessionState::Starting {
            Some((SessionState::Running, None))
        } else {
            None
        },
        SessionInput::Command(c) => match c {
            SessionCommand::Reload | SessionCommand::Restart => if state
                == SessionState::Running {
                Some((SessionState::Reloading, Some(c)))
            } else {
                None
            },
            SessionCommand::Stop => if state == SessionState::Running || state
                == SessionState::Reloading {
                Some((SessionState::Stopping, Some(c)))
            } else {
                None
            },
            SessionCommand::Detach => if state == SessionState::Running {
                Some((SessionState::Stopping, Some(c)))
            } else {
                None
            },
        },
        SessionInput::CommandSucceeded => if state == SessionState::Reloading {
            Some((SessionState::Running, None))
        } else if state == SessionState::Stopping {
            Some((state, pending))
        } else {
            None
        },
        SessionInput::CommandFailed => if state == SessionState::Reloading {
            Some((SessionState::Running, None))
        } else if state == SessionState::Stopping {
            Some((SessionState::Failed, None))
        } else {
            None
        },
        SessionInput::StopEvent => if state == SessionState::Stopping && pending == Some(
            SessionCommand::Stop,
        ) {
            Some((SessionState::Stopped, None))
        } else if state == SessionState::Stopping && pending == Some(SessionCommand::Detach) {
            Some((SessionState::Detached, None))
        } else if state == SessionState::Stopped || state == SessionState::Detached || state
            == SessionState::Failed {
            None
        } else {
            Some((SessionState::Failed, None))
        },
        SessionInput::Disconnect => Some((SessionState::Failed, None)),
    }
}


pub open spec fn ids_unique(ss: Seq<Session>) -> bool {
    forall|i: int, j: int|
        0 <= i < ss.len() && 0 <= j < ss.len() && i != j ==> ss[i].app_id@ != ss[j].app_id@
}

pub open spec fn has_app(ss: Seq<Session>, id: Seq<char>) -> bool {
    exists|i: int| 0 <= i < ss.len() && ss[i].app_id@ == id
}

/// The sessions `ss` after `input` reached the session of `id`: that session
/// moves where the input is allowed, and every other stays as it was.
pub open spec fn sessions_after(ss: Seq<Session>, id: Seq<char>, input: SessionInput) -> Seq<Session> {
    Seq::new(
        ss.len(),
        |i: int|
            if ss[i].app_id@ == id && ss[i].after(input) is Some {
                ss[i].after(input)->Some_0
            } else {
                ss[i]
            },
    )
}

/// The session with application id `id` in `ss`, if any; the last such one
/// where several have it.
pub open spec fn session_of(ss: Seq<Session>, id: Seq<char>) -> Option<Session>
    decreases ss.len(),
{
    if ss.len() == 0 {
        None
    } else if ss.last().app_id@ == id {
        Some(ss.last())
    } else {
        session_of(ss.drop_last(), id)
    }
}

/// Where ids are distinct, the session of an id is the one that has it.
pub proof fn lemma_session_of_unique(ss: Seq<Session>, id: Seq<char>)
    requires
        ids_unique(ss),
    ensures
        !has_app(ss, id) ==> session_of(ss, id) is None,
        forall|i: int| 0 <= i < ss.len() && ss[i].app_id@ == id ==> session_of(ss, id) == Some(ss[i]),
    decreases ss.len(),
{
    if ss.len() > 0 {
        let init = ss.drop_last();
        assert(ids_unique(init)) by {
            assert forall|a: int, b: int|
                0 <= a < init.len() && 0 <= b < init.len() && a != b implies init[a].app_id@
                != init[b].app_id@ by {
                assert(init[a] == ss[a] && init[b] == ss[b]);
            }
        }
        lemma_session_of_unique(init, id);
        assert(ss[ss.len() - 1] == ss.last());
        if !has_app(ss, id) {
            assert(!has_app(init, id)) by {
                if has_app(init, id) {
                    let k = choose|k: int| 0 <= k < init.len() && init[k].app_id@ == id;
                    assert(ss[k] == init[k]);
                }
            }
        }
        assert forall|i: int| 0 <= i < ss.len() && ss[i].app_id@ == id implies session_of(ss, id)
            == Some(ss[i]) by {
            if i < ss.len() - 1 {
                assert(init[i] == ss[i]);
                assert(ss[i].app_id@ != ss[ss.len() - 1].app_id@);
            }
        }
    }
}

/// Applying an input to the session of `id` leaves the session of every other
/// id as it was, and makes that of `id` the one the input moved it to.
pub proof fn lemma_session_of_after(ss: Seq<Session>, id: Seq<char>, input: SessionInput, other: Seq<char>)
    requires
        ids_unique(ss),
    ensures
        ids_unique(sessions_after(ss, id, input)),
        other != id ==> session_of(sessions_after(ss, id, input), other) == session_of(ss, other),
        has_app(sessions_after(ss, id, input), other) == has_app(ss, other),
{
    let t = sessions_after(ss, id, input);
    assert(forall|i: int| 0 <= i < ss.len() ==> #[trigger] t[i].app_id == ss[i].app_id);
    lemma_session_of_unique(ss, other);
    lemma_session_of_unique(t, other);
    if has_app(ss, other) {
        let k = choose|k: int| 0 <= k < ss.len() && ss[k].app_id@ == other;
        assert(t[k].app_id@ == other);
    }
    if has_app(t, other) {
        let k = choose|k: int| 0 <= k < t.len() && t[k].app_id@ == other;
        assert(ss[k].app_id@ == other);
    }
}

/// What acknowledging the session of `id` in `ss` answers (`r`) and leaves
/// (`after`): a session in a terminal state is handed back and leaves; any
/// other stays, and so does everything where no session has that id.
pub open spec fn acknowledged(
    ss: Seq<Session>,
    id: Seq<char>,
    r: Result<Session, SessionError>,
    after: Seq<Session>,
) -> bool {
    &&& !has_app(ss, id) ==> r == Err::<Session, SessionError>(SessionError::UnknownApp) && after
        == ss
    &&& forall|i: int|
        #![trigger ss[i]]
        0 <= i < ss.len() && ss[i].app_id@ == id ==> if is_terminal(ss[i].state) {
            r == Ok::<Session, SessionError>(ss[i]) && after == ss.remove(i)
        } else {
            r == Err::<Session, SessionError>(SessionError::NotTerminal) && after == ss
        }
}

/// The two ways an acknowledgement ends: refused, leaving everything, or
/// taking out a session of that id that had reached a terminal state.
pub proof fn lemma_acknowledged_cases(
    ss: Seq<Session>,
    id: Seq<char>,
    r: Result<Session, SessionError>,
    after: Seq<Session>,
)
    requires
        acknowledged(ss, id, r, after),
    ensures
        r is Err ==> after == ss,
        r is Ok ==> exists|i: int|
            0 <= i < ss.len() && ss[i].app_id@ == id && is_terminal(ss[i].state) && after
                == ss.remove(i),
{
    if has_app(ss, id) {
        let i = choose|i: int| 0 <= i < ss.len() && ss[i].app_id@ == id;
        if is_terminal(ss[i].state) {
            assert(r == Ok::<Session, SessionError>(ss[i]) && after == ss.remove(i));
        } else {
            assert(r == Err::<Session, SessionError>(SessionError::NotTerminal) && after == ss);
        }
    }
}

/// The registry of sessions, at most one per application id.
pub struct SessionManager {
    pub project_root: Option<String>,
    pub sessions: Vec<Session>,
}

impl SessionManager {
    pub open spec fn wf(&self) -> bool {
        ids_unique(self.sessions@)
    }

    /// An empty registry for the project at `project_root`.
    pub fn new(project_root: Option<String>) -> (r: SessionManager)
        ensures
            r.wf(),
            r.project_root == project_root,
            r.sessions@.len() == 0,
    {
        SessionManager { sessions: Vec::new(), project_root }
    }

    /// Where the session with id `app_id` is kept, if there is one.
    pub fn position(&self, app_id: &String) -> (r: Option<usize>)
        requires
            self.wf(),
        ensures
            r is None <==> !has_app(self.sessions@, app_id@),
            r matches Some(i) ==> i < self.sessions@.len() && self.sessions@[i as int].app_id@
                == app_id@,
    {
        let mut i: usize = 0;
        while i < self.sessions.len()
            invariant
                i <= self.sessions@.len(),
                forall|k: int| 0 <= k < i ==> self.sessions@[k].app_id@ != app_id@,
            decreases self.sessions@.len() - i,
        {
            if self.sessions[i].app_id == *app_id {
                return Some(i);
            }
            i = i + 1;
        }
        None
    }

    /// Records the session of an application that was just launched, in
    /// `Starting`. Refused when `app_id` is taken.
    pub fn run_new_app(&mut self, app_id: String, device_id: String) -> (r: Result<(), SessionError>)
        requires
            old(self).wf(),
        ensures
            final(self).wf(),
            final(self).project_root == old(self).project_root,
            has_app(old(self).sessions@, app_id@) ==> r == Err::<(), SessionError>(
                SessionError::DuplicateApp,
            ) && final(self).sessions@ == old(self).sessions@,
            !has_app(old(self).sessions@, app_id@) ==> r is Ok && final(self).sessions@ == old(
                self,
            ).sessions@.push(
                Session {
                    app_id,
                    device_id,
                    project_root: old(self).project_root,
                    state: SessionState::Starting,
                    pending: None,
                },
            ),
    {
        if self.position(&app_id).is_some() {
            return Err(SessionError::DuplicateApp);
        }
        let project_root = match &self.project_root {
            Some(p) => Some(p.clone()),
            None => None,
        };
        let s = Session::new(app_id, device_id, project_root);
        self.sessions.push(s);
        Ok(())
    }

    /// Feeds `input` to the session of `app_id`. Every other session is left
    /// as it was.
    pub fn apply(&mut self, app_id: &String, input: SessionInput) -> (r: Result<(), SessionError>)
        requires
            old(self).wf(),
        ensures
            final(self).wf(),
            final(self).project_root == old(self).project_root,
            final(self).sessions@.len() == old(self).sessions@.len(),
            final(self).sessions@ == sessions_after(old(self).sessions@, app_id@, input),
            !has_app(old(self).sessions@, app_id@) ==> r == Err::<(), SessionError>(
                SessionError::UnknownApp,
            ) && final(self).sessions@ == old(self).sessions@,
            forall|i: int|
                0 <= i < old(self).sessions@.len() && old(self).sessions@[i].app_id@ == app_id@
                    ==> match old(self).sessions@[i].after(input) {
                    Some(s) => r is Ok && final(self).sessions@ == old(self).sessions@.update(i, s),
                    None => r == Err::<(), SessionError>(SessionError::InvalidTransition)
                        && final(self).sessions@ == old(self).sessions@,
                },
    {
        match self.position(app_id) {
            None => {
                assert(self.sessions@ =~= sessions_after(self.sessions@, app_id@, input));
                Err(SessionError::UnknownApp)
            },
            Some(i) => {
                let mut s = self.sessions[i].duplicate();
                let r = s.apply(input);
                if r.is_ok() {
                    self.sessions.set(i, s);
                }
                proof {
                    assert forall|k: int|
                        0 <= k < old(self).sessions@.len() && old(self).sessions@[k].app_id@
                            == app_id@ implies k == i by {
                        if k != i {
                            assert(old(self).sessions@[k].app_id@ != old(
                                self,
                            ).sessions@[i as int].app_id@);
                        }
                    }
                    assert(ids_unique(self.sessions@)) by {
                        assert forall|a: int, b: int|
                            0 <= a < self.sessions@.len() && 0 <= b < self.sessions@.len() && a
                                != b implies self.sessions@[a].app_id@
                            != self.sessions@[b].app_id@ by {
                            assert(old(self).sessions@[a].app_id@ != old(
                                self,
                            ).sessions@[b].app_id@);
                        }
                    }
                    assert(self.sessions@ =~= sessions_after(old(self).sessions@, app_id@, input));
                }
                r
            },
        }
    }

    /// The connection was lost: every session becomes `Failed`.
    pub fn disconnect(&mut self)
        requires
            old(self).wf(),
        ensures
            final(self).wf(),
            final(self).project_root == old(self).project_root,
            final(self).sessions@.len() == old(self).sessions@.len(),
            forall|i: int|
                0 <= i < final(self).sessions@.len() ==> final(self).sessions@[i] == (Session {
                    state: SessionState::Failed,
                    pending: None,
                    ..old(self).sessions@[i]
                }),
    {
        let mut i: usize = 0;
        while i < self.sessions.len()
            invariant
                i <= self.sessions@.len(),
                self.sessions@.len() == old(self).sessions@.len(),
                self.project_root == old(self).project_root,
                forall|k: int|
                    0 <= k < i ==> self.sessions@[k] == (Session {
                        state: SessionState::Failed,
                        pending: None,
                        ..old(self).sessions@[k]
                    }),
                forall|k: int| i <= k < self.sessions@.len() ==> self.sessions@[k] == old(
                    self,
                ).sessions@[k],
            decreases self.sessions@.len() - i,
        {
            let mut s = self.sessions[i].duplicate();
            s.state = SessionState::Failed;
            s.pending = None;
            self.sessions.set(i, s);
            i = i + 1;
        }
        proof {
            assert forall|a: int, b: int|
                0 <= a < self.sessions@.len() && 0 <= b < self.sessions@.len() && a
                    != b implies self.sessions@[a].app_id@ != self.sessions@[b].app_id@ by {
                assert(old(self).sessions@[a].app_id@ != old(self).sessions@[b].app_id@);
            }
        }
    }

    /// The consumer acknowledges the session of `app_id`, which must have
    /// reached a terminal state; it leaves the registry and is handed back.
    pub fn acknowledge(&mut self, app_id: &String) -> (r: Result<Session, SessionError>)
        requires
            old(self).wf(),
        ensures
            final(self).wf(),
            final(self).project_root == old(self).project_root,
            acknowledged(old(self).sessions@, app_id@, r, final(self).sessions@),
    {
        match self.position(app_id) {
            None => Err(SessionError::UnknownApp),
            Some(i) => {
                proof {
                    assert forall|k: int|
                        0 <= k < old(self).sessions@.len() && old(self).sessions@[k].app_id@
                            == app_id@ implies k == i by {
                        if k != i {
                            assert(old(self).sessions@[k].app_id@ != old(
                                self,
                            ).sessions@[i as int].app_id@);
                        }
                    }
                }
                let st = self.sessions[i].state;
                if st == SessionState::Stopped || st == SessionState::Detached || st
                    == SessionState::Failed {
                    let s = self.sessions.remove(i);
                    proof {
                        let o = old(self).sessions@;
                        assert forall|a: int, b: int|
                            0 <= a < self.sessions@.len() && 0 <= b < self.sessions@.len() && a
                                != b implies self.sessions@[a].app_id@
                            != self.sessions@[b].app_id@ by {
                            let a0 = if a < i { a } else { a + 1 };
                            let b0 = if b < i { b } else { b + 1 };
                            assert(self.sessions@[a] == o[a0]);
                            assert(self.sessions@[b] == o[b0]);
                        }
                    }
                    Ok(s)
                } else {
                    Err(SessionError::NotTerminal)
                }
            },
        }
    }

    /// The state of the session of `app_id`, if there is one.
    pub fn state_of(&self, app_id: &String) -> (r: Option<SessionState>)
        requires
            self.wf(),
        ensures
            r is None <==> !has_app(self.sessions@, app_id@),
            forall|i: int|
                0 <= i < self.sessions@.len() && self.sessions@[i].app_id@ == app_id@ ==> r
                    == Some(self.sessions@[i].state),
    {
        match self.position(app_id) {
            None => None,
            Some(i) => {
                proof {
                    assert forall|k: int|
                        0 <= k < self.sessions@.len() && self.sessions@[k].app_id@ == app_id@ implies k
                            == i by {
                        if k != i {
                            assert(self.sessions@[k].app_id@ != self.sessions@[i as int].app_id@);
                        }
                    }
                }
                Some(self.sessions[i].state)
            },
        }
    }
}

} // verus!
