//! The state store: a pure reducer over immutable snapshots, and a store that
//! applies dispatched actions one at a time in dispatch order.

use vstd::prelude::*;
use crate::protocol::Device;
use crate::session::{session_of, Session};

verus! {

/// The state that consumers read: the devices and the sessions, each keyed by
/// its id.
#[derive(Debug, Clone, PartialEq, Eq)]
pub struct State {
    pub devices: Vec<Device>,
    pub sessions: Vec<Session>,
}

/// The model of a [`State`].
pub ghost struct StoreView {
    pub devices: Seq<Device>,
    pub sessions: Seq<Session>,
}

impl View for State {
    type V = StoreView;

    open spec fn view(&self) -> StoreView {
        StoreView { devices: self.devices@, sessions: self.sessions@ }
    }
}

/// A change to the state.
#[derive(Debug, Clone, PartialEq, Eq)]
pub enum Action {
    /// Adds the device, replacing any device with the same id.
    AddDevice { device: Device },
    /// Removes the device with the same id as `device`, if any.
    RemoveDevice { device: Device },
    /// Adds the session, replacing any session with the same application id.
    UpsertSession { session: Session },
    /// Removes the session of `app_id`, if any.
    RemoveSession { app_id: String },
}

/// The devices of `ds` whose id is not `id`, in order.
pub open spec fn without_device(ds: Seq<Device>, id: Seq<char>) -> Seq<Device>
    decreases ds.len(),
{
    if ds.len() == 0 {
        ds
    } else {
        let rest = without_device(ds.drop_last(), id);
        if ds.last().id@ == id {
            rest
        } else {
            rest.push(ds.last())
        }
    }
}

/// The sessions of `ss` whose application id is not `id`, in order.
pub open spec fn without_session(ss: Seq<Session>, id: Seq<char>) -> Seq<Session>
    decreases ss.len(),
{
    if ss.len() == 0 {
        ss
    } else {
        let rest = without_session(ss.drop_last(), id);
        if ss.last().app_id@ == id {
            rest
        } else {
            rest.push(ss.last())
        }
    }
}

pub open spec fn device_ids_unique(ds: Seq<Device>) -> bool {
    forall|i: int, j: int|
        0 <= i < ds.len() && 0 <= j < ds.len() && i != j ==> ds[i].id@ != ds[j].id@
}

pub open spec fn empty_view() -> StoreView {
    StoreView { devices: Seq::empty(), sessions: Seq::empty() }
}

/// What the reducer makes of `s` and `a`.
pub open spec fn reduce(s: StoreView, a: Action) -> StoreView {
    match a {
        Action::AddDevice { device } => StoreView {
            devices: without_device(s.devices, device.id@).push(device),
            ..s
        },
        Action::RemoveDevice { device } => StoreView {
            devices: without_device(s.devices, device.id@),
            ..s
        },
        Action::UpsertSession { session } => StoreView {
            sessions: without_session(s.sessions, session.app_id@).push(session),
            ..s
        },
        Action::RemoveSession { app_id } => StoreView {
            sessions: without_session(s.sessions, app_id@),
            ..s
        },
    }
}

/// The actions of `acts` applied to `s` in order.
pub open spec fn reduce_all(s: StoreView, acts: Seq<Action>) -> StoreView
    decreases acts.len(),
{
    if acts.len() == 0 {
        s
    } else {
        reduce(reduce_all(s, acts.drop_last()), acts.last())
    }
}

fn remove_device_id(ds: Vec<Device>, id: &String) -> (r: Vec<Device>)
    ensures
        r@ == without_device(ds@, id@),
{
    let mut r: Vec<Device> = Vec::new();
    let mut i: usize = 0;
    while i < ds.len()
        invariant
            i <= ds@.len(),
            r@ == without_device(ds@.subrange(0, i as int), id@),
        decreases ds@.len() - i,
    {
        assert(ds@.subrange(0, i + 1).drop_last() == ds@.subrange(0, i as int));
        if ds[i].id != *id {
            r.push(ds[i].duplicate());
        }
        i = i + 1;
    }
    assert(ds@.subrange(0, ds@.len() as int) == ds@);
    r
}

fn remove_session_id(ss: Vec<Session>, id: &String) -> (r: Vec<Session>)
    ensures
        r@ == without_session(ss@, id@),
{
    let mut r: Vec<Session> = Vec::new();
    let mut i: usize = 0;
    while i < ss.len()
        invariant
            i <= ss@.len(),
            r@ == without_session(ss@.subrange(0, i as int), id@),
        decreases ss@.len() - i,
    {
        assert(ss@.subrange(0, i + 1).drop_last() == ss@.subrange(0, i as int));
        if ss[i].app_id != *id {
            r.push(ss[i].duplicate());
        }
        i = i + 1;
    }
    assert(ss@.subrange(0, ss@.len() as int) == ss@);
    r
}

/// The next state after `action`.
pub fn reducer(state: State, action: Action) -> (r: State)
    ensures
        r@ == reduce(state@, action),
        device_ids_unique(state.devices@) ==> device_ids_unique(r.devices@),
{
    proof {
        if device_ids_unique(state.devices@) {
            lemma_reduce_keeps_device_ids_unique(state@, action);
        }
    }
    match action {
        Action::AddDevice { device } => {
            let mut devices = remove_device_id(state.devices, &device.id);
            devices.push(device);
            State { devices, sessions: state.sessions }
        },
        Action::RemoveDevice { device } => State {
            devices: remove_device_id(state.devices, &device.id),
            sessions: state.sessions,
        },
        Action::UpsertSession { session } => {
            let mut sessions = remove_session_id(state.sessions, &session.app_id);
            sessions.push(session);
            State { devices: state.devices, sessions }
        },
        Action::RemoveSession { app_id } => State {
            devices: state.devices,
            sessions: remove_session_id(state.sessions, &app_id),
        },
    }
}


/// Every device that `without_device(ds, id)` keeps comes from `ds` and does
/// not have id `id`.
pub proof fn lemma_without_device_members(ds: Seq<Device>, id: Seq<char>)
    ensures
        without_device(ds, id).len() <= ds.len(),
        forall|k: int|
            0 <= k < without_device(ds, id).len() ==> without_device(ds, id)[k].id@ != id && ds.contains(
                #[trigger] without_device(ds, id)[k],
            ),
    decreases ds.len(),
{
    if ds.len() > 0 {
        lemma_without_device_members(ds.drop_last(), id);
        let rest = without_device(ds.drop_last(), id);
        assert forall|k: int| 0 <= k < rest.len() implies ds.contains(#[trigger] rest[k]) by {
            let j = choose|j: int| 0 <= j < ds.drop_last().len() && ds.drop_last()[j] == rest[k];
            assert(ds[j] == rest[k]);
        }
        assert(ds[ds.len() - 1] == ds.last());
    }
}

/// Removing an id that no device has changes nothing.
pub proof fn lemma_without_absent_device(ds: Seq<Device>, id: Seq<char>)
    requires
        forall|k: int| 0 <= k < ds.len() ==> ds[k].id@ != id,
    ensures
        without_device(ds, id) == ds,
    decreases ds.len(),
{
    if ds.len() > 0 {
        lemma_without_absent_device(ds.drop_last(), id);
        assert(ds.drop_last().push(ds.last()) == ds);
    }
}

/// The devices keep distinct ids under every action.
pub proof fn lemma_reduce_keeps_device_ids_unique(s: StoreView, a: Action)
    requires
        device_ids_unique(s.devices),
    ensures
        device_ids_unique(reduce(s, a).devices),
{
    match a {
        Action::RemoveDevice { device } => {
            lemma_without_unique(s.devices, device.id@);
        },
        Action::AddDevice { device } => {
            lemma_without_unique(s.devices, device.id@);
            let w = without_device(s.devices, device.id@);
            lemma_without_device_members(s.devices, device.id@);
            let r = w.push(device);
            assert forall|i: int, j: int|
                0 <= i < r.len() && 0 <= j < r.len() && i != j implies r[i].id@ != r[j].id@ by {
                if i < w.len() && j < w.len() {
                } else if i < w.len() {
                    assert(w[i].id@ != device.id@);
                } else {
                    assert(w[j].id@ != device.id@);
                }
            }
        },
        _ => {},
    }
}

proof fn lemma_without_unique(ds: Seq<Device>, id: Seq<char>)
    requires
        device_ids_unique(ds),
    ensures
        device_ids_unique(without_device(ds, id)),
    decreases ds.len(),
{
    if ds.len() > 0 {
        let init = ds.drop_last();
        assert(device_ids_unique(init)) by {
            assert forall|i: int, j: int|
                0 <= i < init.len() && 0 <= j < init.len() && i != j implies init[i].id@
                != init[j].id@ by {
                assert(init[i] == ds[i] && init[j] == ds[j]);
            }
        }
        lemma_without_unique(init, id);
        lemma_without_device_members(init, id);
        let rest = without_device(init, id);
        if ds.last().id@ != id {
            let r = rest.push(ds.last());
            assert forall|i: int, j: int|
                0 <= i < r.len() && 0 <= j < r.len() && i != j implies r[i].id@ != r[j].id@ by {
                if i < rest.len() && j < rest.len() {
                } else if i < rest.len() {
                    assert(init.contains(rest[i]));
                    let k = choose|k: int| 0 <= k < init.len() && init[k] == rest[i];
                    assert(ds[k] == init[k]);
                    assert(ds[ds.len() - 1] == ds.last());
                } else {
                    assert(init.contains(rest[j]));
                    let k = choose|k: int| 0 <= k < init.len() && init[k] == rest[j];
                    assert(ds[k] == init[k]);
                    assert(ds[ds.len() - 1] == ds.last());
                }
            }
        }
    }
}

/// Adding two devices with the same id, one after the other, leaves exactly
/// one device with that id, the one added last; removing an id that no device
/// has leaves the devices as they were.
pub proof fn lemma_device_map_semantics(s: StoreView, first: Device, second: Device, absent: Device)
    requires
        first.id@ == second.id@,
        forall|k: int| 0 <= k < s.devices.len() ==> s.devices[k].id@ != absent.id@,
    ensures
        ({
            let r = reduce(
                reduce(s, Action::AddDevice { device: first }),
                Action::AddDevice { device: second },
            ).devices;
            &&& r.len() > 0
            &&& r.last() == second
            &&& forall|k: int| 0 <= k < r.len() - 1 ==> r[k].id@ != second.id@
        }),
        reduce(s, Action::RemoveDevice { device: absent }) == s,
{
    let s1 = reduce(s, Action::AddDevice { device: first });
    lemma_without_device_members(s1.devices, second.id@);
    lemma_without_absent_device(s.devices, absent.id@);
}

proof fn lemma_session_of_without(ss: Seq<Session>, id: Seq<char>, other: Seq<char>)
    ensures
        session_of(without_session(ss, id), other) == if other == id {
            None
        } else {
            session_of(ss, other)
        },
    decreases ss.len(),
{
    if ss.len() > 0 {
        let rest = without_session(ss.drop_last(), id);
        lemma_session_of_without(ss.drop_last(), id, other);
        assert(rest.push(ss.last()).drop_last() =~= rest);
    }
}

/// How an action changes the session kept under each application id: an
/// upsert replaces it, a removal takes it away, and every other id keeps its
/// session.
pub proof fn lemma_reduce_session_of(s: StoreView, a: Action, other: Seq<char>)
    ensures
        session_of(reduce(s, a).sessions, other) == match a {
            Action::UpsertSession { session } => if other == session.app_id@ {
                Some(session)
            } else {
                session_of(s.sessions, other)
            },
            Action::RemoveSession { app_id } => if other == app_id@ {
                None
            } else {
                session_of(s.sessions, other)
            },
            _ => session_of(s.sessions, other),
        },
{
    match a {
        Action::UpsertSession { session } => {
            let rest = without_session(s.sessions, session.app_id@);
            lemma_session_of_without(s.sessions, session.app_id@, other);
            assert(rest.push(session).drop_last() =~= rest);
        },
        Action::RemoveSession { app_id } => {
            lemma_session_of_without(s.sessions, app_id@, other);
        },
        _ => {},
    }
}

/// Sending the same device twice, after any actions, leaves exactly one
/// device with its id in the state those actions make: the one sent last.
pub proof fn lemma_repeated_add_keeps_one(s: StoreView, acts: Seq<Action>, first: Device, second: Device)
    requires
        first.id@ == second.id@,
    ensures
        ({
            let r = reduce_all(
                s,
                acts.push(Action::AddDevice { device: first }).push(
                    Action::AddDevice { device: second },
                ),
            ).devices;
            &&& r.len() > 0
            &&& r.last() == second
            &&& forall|k: int| 0 <= k < r.len() - 1 ==> r[k].id@ != second.id@
        }),
{
    let a1 = acts.push(Action::AddDevice { device: first });
    let a2 = a1.push(Action::AddDevice { device: second });
    assert(a2.drop_last() =~= a1);
    assert(a1.drop_last() =~= acts);
    assert(a2.last() == Action::AddDevice { device: second });
    assert(a1.last() == Action::AddDevice { device: first });
    let s1 = reduce(reduce_all(s, acts), Action::AddDevice { device: first });
    assert(reduce_all(s, a1) == s1);
    assert(reduce_all(s, a2) == reduce(s1, Action::AddDevice { device: second }));
    lemma_without_device_members(s1.devices, second.id@);
}

/// A store: the current state, the actions dispatched and not yet applied,
/// and whether it was shut down. Actions are applied one at a time, in the
/// order in which they were dispatched.
pub struct Store {
    state: State,
    queue: Vec<Action>,
    cancelled: bool,
    /// Every action that the store accepted, in dispatch order.
    history: Ghost<Seq<Action>>,
}

impl Store {
    /// The state last published.
    pub closed spec fn current(&self) -> StoreView {
        self.state@
    }

    /// The actions waiting to be applied, oldest first.
    pub closed spec fn queued(&self) -> Seq<Action> {
        self.queue@
    }

    /// Every action accepted so far, in dispatch order.
    pub closed spec fn dispatched(&self) -> Seq<Action> {
        self.history@
    }

    pub closed spec fn is_shut_down(&self) -> bool {
        self.cancelled
    }

    /// The applied actions are the accepted ones but for those still queued,
    /// and the state is what they make of the empty state.
    pub closed spec fn wf(&self) -> bool {
        let n = self.history@.len() - self.queue@.len();
        &&& 0 <= n
        &&& self.history@ == self.history@.take(n) + self.queue@
        &&& self.state@ == reduce_all(empty_view(), self.history@.take(n))
        &&& device_ids_unique(self.state.devices@)
    }

    /// An empty store.
    pub fn new() -> (r: Store)
        ensures
            r.wf(),
            r.current() == empty_view(),
            r.queued().len() == 0,
            r.dispatched().len() == 0,
            !r.is_shut_down(),
    {
        let r = Store {
            state: State { devices: Vec::new(), sessions: Vec::new() },
            queue: Vec::new(),
            cancelled: false,
            history: Ghost(Seq::empty()),
        };
        assert(r.history@.take(0) + r.queue@ =~= r.history@);
        assert(r.state@ == empty_view());
        r
    }

    /// Queues `action` without applying it. A store that was shut down takes
    /// no more actions and answers `false`.
    pub fn dispatch(&mut self, action: Action) -> (r: bool)
        requires
            old(self).wf(),
        ensures
            final(self).wf(),
            r == !old(self).is_shut_down(),
            final(self).current() == old(self).current(),
            final(self).is_shut_down() == old(self).is_shut_down(),
            r ==> final(self).queued() == old(self).queued().push(action) && final(self).dispatched()
                == old(self).dispatched().push(action),
            !r ==> final(self).queued() == old(self).queued() && final(self).dispatched() == old(
                self,
            ).dispatched(),
    {
        if self.cancelled {
            return false;
        }
        let ghost n = self.history@.len() - self.queue@.len();
        self.history = Ghost(self.history@.push(action));
        self.queue.push(action);
        assert(self.history@.take(n) =~= old(self).history@.take(n));
        assert(self.history@ =~= self.history@.take(n) + self.queue@);
        true
    }

    /// Applies the oldest queued action, if the store runs and one is queued;
    /// answers whether it did.
    pub fn process_next(&mut self) -> (r: bool)
        requires
            old(self).wf(),
        ensures
            final(self).wf(),
            r == (!old(self).is_shut_down() && old(self).queued().len() > 0),
            final(self).dispatched() == old(self).dispatched(),
            final(self).is_shut_down() == old(self).is_shut_down(),
            r ==> final(self).current() == reduce(old(self).current(), old(self).queued()[0])
                && final(self).queued() == old(self).queued().drop_first(),
            !r ==> final(self).current() == old(self).current() && final(self).queued() == old(
                self,
            ).queued(),
    {
        if self.cancelled || self.queue.len() == 0 {
            return false;
        }
        let ghost h = self.history@;
        let ghost n = h.len() - self.queue@.len();
        let action = self.queue.remove(0);
        let mut prev = State { devices: Vec::new(), sessions: Vec::new() };
        std::mem::swap(&mut self.state, &mut prev);
        self.state = reducer(prev, action);
        proof {
            assert(h[n] == action) by {
                assert(h == h.take(n) + old(self).queue@);
            }
            assert(h.take(n + 1).drop_last() =~= h.take(n));
            assert(h =~= h.take(n + 1) + self.queue@);
        }
        true
    }

    /// Applies every queued action, in order.
    pub fn run_pending(&mut self)
        requires
            old(self).wf(),
        ensures
            final(self).wf(),
            final(self).dispatched() == old(self).dispatched(),
            final(self).is_shut_down() == old(self).is_shut_down(),
            !old(self).is_shut_down() ==> final(self).queued().len() == 0 && final(self).current()
                == reduce_all(empty_view(), old(self).dispatched()),
            old(self).is_shut_down() ==> final(self).current() == old(self).current()
                && final(self).queued() == old(self).queued(),
    {
        while self.process_next()
            invariant
                self.wf(),
                self.dispatched() == old(self).dispatched(),
                self.is_shut_down() == old(self).is_shut_down(),
                old(self).is_shut_down() ==> self.current() == old(self).current()
                    && self.queued() == old(self).queued(),
            decreases self.queued().len(),
        {
        }
        proof {
            if !self.cancelled {
                assert(self.history@.take(self.history@.len() as int) =~= self.history@);
            }
        }
    }

    /// A snapshot of the state last published.
    pub fn get_state(&self) -> (r: State)
        ensures
            r@ == self.current(),
    {
        let mut devices: Vec<Device> = Vec::new();
        let mut i: usize = 0;
        while i < self.state.devices.len()
            invariant
                i <= self.state.devices@.len(),
                devices@ == self.state.devices@.take(i as int),
            decreases self.state.devices@.len() - i,
        {
            devices.push(self.state.devices[i].duplicate());
            i = i + 1;
            assert(devices@ =~= self.state.devices@.take(i as int));
        }
        let mut sessions: Vec<Session> = Vec::new();
        let mut j: usize = 0;
        while j < self.state.sessions.len()
            invariant
                j <= self.state.sessions@.len(),
                sessions@ == self.state.sessions@.take(j as int),
            decreases self.state.sessions@.len() - j,
        {
            sessions.push(self.state.sessions[j].duplicate());
            j = j + 1;
            assert(sessions@ =~= self.state.sessions@.take(j as int));
        }
        assert(devices@ =~= self.state.devices@);
        assert(sessions@ =~= self.state.sessions@);
        State { devices, sessions }
    }

    /// Stops the store: from now on no action is taken or applied. An action
    /// is applied whole or not at all.
    pub fn shutdown(&mut self)
        requires
            old(self).wf(),
        ensures
            final(self).wf(),
            final(self).is_shut_down(),
            final(self).current() == old(self).current(),
            final(self).queued() == old(self).queued(),
            final(self).dispatched() == old(self).dispatched(),
    {
        self.cancelled = true;
    }
}

/// Applying a list of actions in one go is the same as applying a first part
/// of it and then the rest: the state that the store publishes once its queue
/// is empty is the one that the reducer makes of all dispatched actions in
/// order, however dispatching and applying interleaved.
pub proof fn lemma_reduce_all_split(s: StoreView, acts: Seq<Action>, k: int)
    requires
        0 <= k <= acts.len(),
    ensures
        reduce_all(s, acts) == reduce_all(reduce_all(s, acts.take(k)), acts.skip(k)),
    decreases acts.len(),
{
    if k == acts.len() {
        assert(acts.take(k) =~= acts);
        assert(acts.skip(k).len() == 0);
    } else {
        lemma_reduce_all_split(s, acts.drop_last(), k);
        assert(acts.drop_last().take(k) =~= acts.take(k));
        assert(acts.skip(k).drop_last() =~= acts.drop_last().skip(k));
        assert(acts.skip(k).last() == acts.last());
    }
}

} // verus!
