//! Matching responses to requests by id: id allocation, the table of pending
//! requests, timeouts and disconnection.

use vstd::prelude::*;
use crate::session::{SessionCommand, SessionError};

verus! {

/// What a pending request was for, so that its answer can be acted upon.
#[derive(Debug, Clone, PartialEq, Eq)]
pub enum Purpose {
    /// A request whose answer goes back to the caller only.
    Plain,
    /// A launch on the given device; its answer names the new session.
    Launch { device_id: String },
    /// A lifecycle command for the session of `app_id`.
    Lifecycle { app_id: String, command: SessionCommand },
}

impl Purpose {
    /// A field-by-field copy.
    pub fn duplicate(&self) -> (r: Purpose)
        ensures
            r == *self,
    {
        match self {
            Purpose::Plain => Purpose::Plain,
            Purpose::Launch { device_id } => Purpose::Launch { device_id: device_id.clone() },
            Purpose::Lifecycle { app_id, command } => Purpose::Lifecycle {
                app_id: app_id.clone(),
                command: *command,
            },
        }
    }
}

/// A request sent and not yet resolved.
#[derive(Debug, Clone, PartialEq, Eq)]
pub struct PendingRequest {
    pub id: u64,
    /// The time, in milliseconds, from which the request has timed out.
    pub deadline: u64,
    pub purpose: Purpose,
}

impl PendingRequest {
    /// A field-by-field copy.
    pub fn duplicate(&self) -> (r: PendingRequest)
        ensures
            r == *self,
    {
        PendingRequest { id: self.id, deadline: self.deadline, purpose: self.purpose.duplicate() }
    }
}

/// Why a request was not answered with a result.
#[derive(Debug, Clone, PartialEq, Eq)]
pub enum CallError {
    /// The connection to the daemon is lost.
    Transport,
    /// No answer came before the deadline.
    Timeout,
    /// The daemon answered with an error.
    Daemon { code: Option<i64>, message: String },
    /// Every request id has been used.
    IdsExhausted,
    /// The session registry refused the command.
    Rejected(SessionError),
}

pub open spec fn has_id(p: Seq<PendingRequest>, id: u64) -> bool {
    exists|i: int| 0 <= i < p.len() && p[i].id == id
}

/// Ids grow along the table: the order in which they were handed out.
pub open spec fn ids_increasing(p: Seq<PendingRequest>) -> bool {
    forall|i: int, j: int| 0 <= i < j < p.len() ==> p[i].id < p[j].id
}

/// The entries of `p` but those with id `id`, in order.
pub open spec fn without_id(p: Seq<PendingRequest>, id: u64) -> Seq<PendingRequest>
    decreases p.len(),
{
    if p.len() == 0 {
        p
    } else {
        let rest = without_id(p.drop_last(), id);
        if p.last().id == id {
            rest
        } else {
            rest.push(p.last())
        }
    }
}

/// The entries of `p` whose deadline has not come at `now`, in order.
pub open spec fn live_at(p: Seq<PendingRequest>, now: u64) -> Seq<PendingRequest>
    decreases p.len(),
{
    if p.len() == 0 {
        p
    } else {
        let rest = live_at(p.drop_last(), now);
        if now < p.last().deadline {
            rest.push(p.last())
        } else {
            rest
        }
    }
}

/// The entries of `p` whose deadline has come at `now`, in order.
pub open spec fn expired_at(p: Seq<PendingRequest>, now: u64) -> Seq<PendingRequest>
    decreases p.len(),
{
    if p.len() == 0 {
        p
    } else {
        let rest = expired_at(p.drop_last(), now);
        if now < p.last().deadline {
            rest
        } else {
            rest.push(p.last())
        }
    }
}

proof fn lemma_without_id_sub(p: Seq<PendingRequest>, id: u64)
    ensures
        forall|k: int|
            0 <= k < without_id(p, id).len() ==> without_id(p, id)[k].id != id && p.contains(
                #[trigger] without_id(p, id)[k],
            ),
        ids_increasing(p) ==> ids_increasing(without_id(p, id)),
    decreases p.len(),
{
    if p.len() > 0 {
        let init = p.drop_last();
        lemma_without_id_sub(init, id);
        let rest = without_id(init, id);
        assert forall|k: int| 0 <= k < rest.len() implies p.contains(#[trigger] rest[k]) by {
            let j = choose|j: int| 0 <= j < init.len() && init[j] == rest[k];
            assert(p[j] == rest[k]);
        }
        assert(p[p.len() - 1] == p.last());
        if ids_increasing(p) {
            assert(ids_increasing(init));
            assert forall|k: int| 0 <= k < rest.len() implies rest[k].id < p.last().id by {
                let j = choose|j: int| 0 <= j < init.len() && init[j] == rest[k];
                assert(p[j] == rest[k]);
            }
        }
    }
}

proof fn lemma_live_at_sub(p: Seq<PendingRequest>, now: u64)
    ensures
        forall|k: int|
            0 <= k < live_at(p, now).len() ==> now < live_at(p, now)[k].deadline && p.contains(
                #[trigger] live_at(p, now)[k],
            ),
        ids_increasing(p) ==> ids_increasing(live_at(p, now)),
    decreases p.len(),
{
    if p.len() > 0 {
        let init = p.drop_last();
        lemma_live_at_sub(init, now);
        let rest = live_at(init, now);
        assert forall|k: int| 0 <= k < rest.len() implies p.contains(#[trigger] rest[k]) by {
            let j = choose|j: int| 0 <= j < init.len() && init[j] == rest[k];
            assert(p[j] == rest[k]);
        }
        assert(p[p.len() - 1] == p.last());
        if ids_increasing(p) {
            assert(ids_increasing(init));
            assert forall|k: int| 0 <= k < rest.len() implies rest[k].id < p.last().id by {
                let j = choose|j: int| 0 <= j < init.len() && init[j] == rest[k];
                assert(p[j] == rest[k]);
            }
        }
    }
}

/// The table of pending requests. Ids are handed out in increasing order,
/// starting from 1, and never twice.
pub struct Correlator {
    next_id: u64,
    pending: Vec<PendingRequest>,
    disconnected: bool,
}

impl Correlator {
    pub closed spec fn next(&self) -> u64 {
        self.next_id
    }

    pub closed spec fn table(&self) -> Seq<PendingRequest> {
        self.pending@
    }

    pub closed spec fn is_disconnected(&self) -> bool {
        self.disconnected
    }

    /// Every pending id was handed out before, and none twice.
    pub closed spec fn wf(&self) -> bool {
        &&& ids_increasing(self.pending@)
        &&& forall|i: int| 0 <= i < self.pending@.len() ==> self.pending@[i].id < self.next_id
        &&& 1 <= self.next_id
        &&& self.disconnected ==> self.pending@.len() == 0
    }

    pub fn new() -> (r: Correlator)
        ensures
            r.wf(),
            r.next() == 1,
            r.table().len() == 0,
            !r.is_disconnected(),
    {
        Correlator { next_id: 1, pending: Vec::new(), disconnected: false }
    }

    /// How many requests are waiting for an answer.
    pub fn pending_count(&self) -> (r: usize)
        ensures
            r == self.table().len(),
    {
        self.pending.len()
    }

    /// Whether a request with id `id` is waiting for an answer.
    pub fn is_pending(&self, id: u64) -> (r: bool)
        ensures
            r == has_id(self.table(), id),
    {
        let mut i: usize = 0;
        while i < self.pending.len()
            invariant
                i <= self.pending@.len(),
                forall|k: int| 0 <= k < i ==> self.pending@[k].id != id,
            decreases self.pending@.len() - i,
        {
            if self.pending[i].id == id {
                return true;
            }
            i = i + 1;
        }
        false
    }

    /// Every pending id was handed out already: it is below the next one.
    pub proof fn lemma_ids_below_next(&self)
        requires
            self.wf(),
        ensures
            forall|x: u64| has_id(self.table(), x) ==> x < self.next(),
    {
        assert forall|x: u64| has_id(self.table(), x) implies x < self.next() by {
            let k = choose|k: int| 0 <= k < self.pending@.len() && self.pending@[k].id == x;
        }
    }

    /// What [`Correlator::register`] would answer, but for success.
    pub fn check(&self) -> (r: Result<(), CallError>)
        ensures
            self.is_disconnected() ==> r == Err::<(), CallError>(CallError::Transport),
            !self.is_disconnected() && self.next() == u64::MAX ==> r == Err::<(), CallError>(
                CallError::IdsExhausted,
            ),
            !self.is_disconnected() && self.next() < u64::MAX ==> r is Ok,
    {
        if self.disconnected {
            Err(CallError::Transport)
        } else if self.next_id == u64::MAX {
            Err(CallError::IdsExhausted)
        } else {
            Ok(())
        }
    }

    /// Allocates the next id for a request sent at `now` that may wait
    /// `timeout` milliseconds, and records it as pending.
    pub fn register(&mut self, now: u64, timeout: u64, purpose: Purpose) -> (r: Result<u64, CallError>)
        requires
            old(self).wf(),
        ensures
            final(self).wf(),
            final(self).is_disconnected() == old(self).is_disconnected(),
            old(self).is_disconnected() ==> r == Err::<u64, CallError>(CallError::Transport)
                && *final(self) == *old(self),
            !old(self).is_disconnected() && old(self).next() == u64::MAX ==> r == Err::<
                u64,
                CallError,
            >(CallError::IdsExhausted) && *final(self) == *old(self),
            !old(self).is_disconnected() && old(self).next() < u64::MAX ==> {
                &&& r == Ok::<u64, CallError>(old(self).next())
                &&& !has_id(old(self).table(), old(self).next())
                &&& final(self).next() == old(self).next() + 1
                &&& final(self).table() == old(self).table().push(
                    PendingRequest {
                        id: old(self).next(),
                        deadline: if now as int + timeout as int <= u64::MAX {
                            (now + timeout) as u64
                        } else {
                            u64::MAX
                        },
                        purpose,
                    },
                )
            },
    {
        if self.disconnected {
            return Err(CallError::Transport);
        }
        if self.next_id == u64::MAX {
            return Err(CallError::IdsExhausted);
        }
        let id = self.next_id;
        let deadline = now.checked_add(timeout).unwrap_or(u64::MAX);
        self.pending.push(PendingRequest { id, deadline, purpose });
        self.next_id = id + 1;
        Ok(id)
    }
}

impl Correlator {
    /// Takes the request with id `id` out of the table, as its answer came.
    /// An answer to an id that is not pending changes nothing.
    pub fn complete(&mut self, id: u64) -> (r: Option<PendingRequest>)
        requires
            old(self).wf(),
        ensures
            final(self).wf(),
            final(self).next() == old(self).next(),
            final(self).is_disconnected() == old(self).is_disconnected(),
            final(self).table() == without_id(old(self).table(), id),
            r is Some <==> has_id(old(self).table(), id),
            r matches Some(e) ==> e.id == id && old(self).table().contains(e) && forall|x: PendingRequest|
                #![trigger old(self).table().contains(x)]
                old(self).table().contains(x) && x.id == id ==> x == e,
    {
        let mut kept: Vec<PendingRequest> = Vec::new();
        let mut found: Option<PendingRequest> = None;
        let mut i: usize = 0;
        while i < self.pending.len()
            invariant
                i <= self.pending@.len(),
                self.pending@ == old(self).pending@,
                kept@ == without_id(self.pending@.take(i as int), id),
                found is None <==> forall|k: int| 0 <= k < i ==> self.pending@[k].id != id,
                found matches Some(e) ==> e.id == id && self.pending@.contains(e),
            decreases self.pending@.len() - i,
        {
            assert(self.pending@.take(i + 1).drop_last() == self.pending@.take(i as int));
            if self.pending[i].id == id {
                found = Some(self.pending[i].duplicate());
            } else {
                kept.push(self.pending[i].duplicate());
            }
            i = i + 1;
        }
        assert(self.pending@.take(self.pending@.len() as int) == self.pending@);
        proof {
            if found is Some {
                let e = found->Some_0;
                let table = self.pending@;
                assert forall|x: PendingRequest|
                    table.contains(x) && x.id == id implies x == e by {
                    let a = choose|a: int| 0 <= a < table.len() && table[a] == x;
                    let b = choose|b: int| 0 <= b < table.len() && table[b] == e;
                    if a < b {
                        assert(table[a].id < table[b].id);
                    } else if b < a {
                        assert(table[b].id < table[a].id);
                    }
                }
            }
            lemma_without_id_sub(self.pending@, id);
            assert forall|k: int| 0 <= k < kept@.len() implies kept@[k].id < self.next_id by {
                let j = choose|j: int| 0 <= j < self.pending@.len() && self.pending@[j] == kept@[k];
            }
            if self.disconnected {
                assert(kept@.len() == 0) by {
                    assert(self.pending@.len() == 0);
                }
            }
        }
        self.pending = kept;
        found
    }

    /// Takes every request whose deadline has come at `now` out of the table
    /// and hands them back, oldest first: each of them has timed out.
    pub fn expire(&mut self, now: u64) -> (r: Vec<PendingRequest>)
        requires
            old(self).wf(),
        ensures
            final(self).wf(),
            final(self).next() == old(self).next(),
            final(self).is_disconnected() == old(self).is_disconnected(),
            final(self).table() == live_at(old(self).table(), now),
            r@ == expired_at(old(self).table(), now),
    {
        let mut kept: Vec<PendingRequest> = Vec::new();
        let mut gone: Vec<PendingRequest> = Vec::new();
        let mut i: usize = 0;
        while i < self.pending.len()
            invariant
                i <= self.pending@.len(),
                self.pending@ == old(self).pending@,
                kept@ == live_at(self.pending@.take(i as int), now),
                gone@ == expired_at(self.pending@.take(i as int), now),
            decreases self.pending@.len() - i,
        {
            assert(self.pending@.take(i + 1).drop_last() == self.pending@.take(i as int));
            if now < self.pending[i].deadline {
                kept.push(self.pending[i].duplicate());
            } else {
                gone.push(self.pending[i].duplicate());
            }
            i = i + 1;
        }
        assert(self.pending@.take(self.pending@.len() as int) == self.pending@);
        proof {
            lemma_live_at_sub(self.pending@, now);
            assert forall|k: int| 0 <= k < kept@.len() implies kept@[k].id < self.next_id by {
                let j = choose|j: int| 0 <= j < self.pending@.len() && self.pending@[j] == kept@[k];
            }
            if self.disconnected {
                assert(kept@.len() == 0) by {
                    assert(self.pending@.len() == 0);
                }
            }
        }
        self.pending = kept;
        gone
    }

    /// The connection is lost: every pending request is taken out of the
    /// table and handed back, oldest first, and no request is taken any more.
    pub fn fail_all(&mut self) -> (r: Vec<PendingRequest>)
        requires
            old(self).wf(),
        ensures
            final(self).wf(),
            final(self).next() == old(self).next(),
            final(self).is_disconnected(),
            final(self).table().len() == 0,
            r@ == old(self).table(),
    {
        let mut gone: Vec<PendingRequest> = Vec::new();
        std::mem::swap(&mut gone, &mut self.pending);
        self.disconnected = true;
        gone
    }
}

/// The table after answers to the ids of `order`, taken in that order.
pub open spec fn without_ids(p: Seq<PendingRequest>, order: Seq<u64>) -> Seq<PendingRequest>
    decreases order.len(),
{
    if order.len() == 0 {
        p
    } else {
        without_id(without_ids(p, order.drop_last()), order.last())
    }
}

proof fn lemma_without_id_append(p: Seq<PendingRequest>, f: Seq<PendingRequest>, x: u64)
    requires
        !has_id(p, x),
    ensures
        without_id(p + f, x) == p + without_id(f, x),
    decreases f.len(),
{
    if f.len() == 0 {
        assert(p + f =~= p);
        lemma_without_absent_id(p, x);
    } else {
        lemma_without_id_append(p, f.drop_last(), x);
        assert((p + f).drop_last() =~= p + f.drop_last());
        assert((p + f).last() == f.last());
        if f.last().id != x {
            assert(p + without_id(f.drop_last(), x).push(f.last()) =~= (p + without_id(
                f.drop_last(),
                x,
            )).push(f.last()));
        }
    }
}

proof fn lemma_without_absent_id(p: Seq<PendingRequest>, x: u64)
    requires
        !has_id(p, x),
    ensures
        without_id(p, x) == p,
    decreases p.len(),
{
    if p.len() > 0 {
        assert(!has_id(p.drop_last(), x)) by {
            if has_id(p.drop_last(), x) {
                let j = choose|j: int| 0 <= j < p.drop_last().len() && p.drop_last()[j].id == x;
                assert(p[j].id == x);
            }
        }
        lemma_without_absent_id(p.drop_last(), x);
        assert(p[p.len() - 1] == p.last());
        assert(p.drop_last().push(p.last()) =~= p);
    }
}

proof fn lemma_without_ids_append(p: Seq<PendingRequest>, f: Seq<PendingRequest>, order: Seq<u64>)
    requires
        forall|k: int| 0 <= k < order.len() ==> !has_id(p, order[k]),
    ensures
        without_ids(p + f, order) == p + without_ids(f, order),
    decreases order.len(),
{
    if order.len() > 0 {
        lemma_without_ids_append(p, f, order.drop_last());
        assert(!has_id(p, order[order.len() - 1]));
        lemma_without_id_append(p, without_ids(f, order.drop_last()), order.last());
    }
}

proof fn lemma_without_ids_sub(f: Seq<PendingRequest>, order: Seq<u64>)
    ensures
        forall|k: int|
            0 <= k < without_ids(f, order).len() ==> f.contains(#[trigger] without_ids(f, order)[k])
                && !order.contains(without_ids(f, order)[k].id),
    decreases order.len(),
{
    if order.len() > 0 {
        let prev = without_ids(f, order.drop_last());
        lemma_without_ids_sub(f, order.drop_last());
        lemma_without_id_sub(prev, order.last());
        let r = without_ids(f, order);
        assert forall|k: int| 0 <= k < r.len() implies f.contains(#[trigger] r[k]) && !order.contains(
            r[k].id,
        ) by {
            let j = choose|j: int| 0 <= j < prev.len() && prev[j] == r[k];
            assert(f.contains(prev[j]));
            if order.contains(r[k].id) {
                let m = choose|m: int| 0 <= m < order.len() && order[m] == r[k].id;
                if m < order.len() - 1 {
                    assert(order.drop_last()[m] == r[k].id);
                } else {
                    assert(r[k].id != order.last());
                }
            }
        }
    }
}

/// Taking an answer out of the table keeps every other request as it was and
/// adds none.
pub proof fn lemma_without_id_subset(p: Seq<PendingRequest>, id: u64)
    ensures
        forall|x: u64| has_id(without_id(p, id), x) ==> has_id(p, x) && x != id,
{
    lemma_without_id_sub(p, id);
    assert forall|x: u64| has_id(without_id(p, id), x) implies has_id(p, x) && x != id by {
        let k = choose|k: int| 0 <= k < without_id(p, id).len() && without_id(p, id)[k].id == x;
        assert(p.contains(without_id(p, id)[k]));
    }
}

/// Each request is resolved exactly once, whatever the order in which the
/// answers come. Once the answer to `a` has taken it out of the table, a
/// second answer to `a` finds nothing, and every other request is still
/// pending as before; and at any time, a pending request either times out or
/// stays pending, never both.
pub proof fn lemma_single_resolution(p: Seq<PendingRequest>, a: u64, b: u64, now: u64)
    requires
        ids_increasing(p),
        has_id(p, a),
    ensures
        !has_id(without_id(p, a), a),
        without_id(without_id(p, a), a) == without_id(p, a),
        without_id(p, a).len() == p.len() - 1,
        a != b ==> has_id(without_id(p, a), b) == has_id(p, b),
        has_id(live_at(p, now), a) != has_id(expired_at(p, now), a),
{
    lemma_without_id_sub(p, a);
    lemma_without_absent_id(without_id(p, a), a);
    lemma_without_id_single(p, a);
    if a != b {
        if has_id(p, b) {
            let j = choose|j: int| 0 <= j < p.len() && p[j].id == b;
            lemma_without_id_keeps(p, a, j);
        }
        if has_id(without_id(p, a), b) {
            let k = choose|k: int| 0 <= k < without_id(p, a).len() && without_id(p, a)[k].id == b;
            assert(p.contains(without_id(p, a)[k]));
        }
    }
    lemma_live_expired_split(p, now, a);
}

proof fn lemma_without_id_keeps(p: Seq<PendingRequest>, a: u64, j: int)
    requires
        0 <= j < p.len(),
        p[j].id != a,
    ensures
        without_id(p, a).contains(p[j]),
    decreases p.len(),
{
    if j < p.len() - 1 {
        lemma_without_id_keeps(p.drop_last(), a, j);
        let k = choose|k: int|
            0 <= k < without_id(p.drop_last(), a).len() && without_id(p.drop_last(), a)[k] == p[j];
        if p.last().id != a {
            assert(without_id(p, a)[k] == p[j]);
        }
    } else {
        assert(without_id(p, a)[without_id(p, a).len() - 1] == p[j]);
    }
}

proof fn lemma_without_id_single(p: Seq<PendingRequest>, a: u64)
    requires
        ids_increasing(p),
        has_id(p, a),
    ensures
        without_id(p, a).len() == p.len() - 1,
    decreases p.len(),
{
    let init = p.drop_last();
    assert(ids_increasing(init));
    if p.last().id == a {
        assert(!has_id(init, a)) by {
            if has_id(init, a) {
                let j = choose|j: int| 0 <= j < init.len() && init[j].id == a;
                assert(p[j].id < p[p.len() - 1].id);
            }
        }
        lemma_without_absent_id(init, a);
    } else {
        let j = choose|j: int| 0 <= j < p.len() && p[j].id == a;
        assert(j < p.len() - 1);
        assert(init[j].id == a);
        lemma_without_id_single(init, a);
    }
}

proof fn lemma_live_expired_split(p: Seq<PendingRequest>, now: u64, a: u64)
    requires
        ids_increasing(p),
        has_id(p, a),
    ensures
        has_id(live_at(p, now), a) != has_id(expired_at(p, now), a),
    decreases p.len(),
{
    let init = p.drop_last();
    assert(ids_increasing(init));
    lemma_live_at_sub(init, now);
    lemma_expired_at_sub(init, now);
    if p.last().id == a {
        assert(!has_id(live_at(init, now), a)) by {
            if has_id(live_at(init, now), a) {
                let k = choose|k: int| 0 <= k < live_at(init, now).len() && live_at(init, now)[k].id == a;
                let j = choose|j: int| 0 <= j < init.len() && init[j] == live_at(init, now)[k];
                assert(p[j].id < p[p.len() - 1].id);
            }
        }
        assert(!has_id(expired_at(init, now), a)) by {
            if has_id(expired_at(init, now), a) {
                let k = choose|k: int|
                    0 <= k < expired_at(init, now).len() && expired_at(init, now)[k].id == a;
                let j = choose|j: int| 0 <= j < init.len() && init[j] == expired_at(init, now)[k];
                assert(p[j].id < p[p.len() - 1].id);
            }
        }
        let l = live_at(p, now);
        let e = expired_at(p, now);
        if now < p.last().deadline {
            assert(l[l.len() - 1].id == a);
        } else {
            assert(e[e.len() - 1].id == a);
        }
    } else {
        let j = choose|j: int| 0 <= j < p.len() && p[j].id == a;
        assert(j < p.len() - 1);
        assert(init[j].id == a);
        lemma_live_expired_split(init, now, a);
        let l0 = live_at(init, now);
        let e0 = expired_at(init, now);
        if now < p.last().deadline {
            if has_id(l0, a) {
                let k = choose|k: int| 0 <= k < l0.len() && l0[k].id == a;
                assert(live_at(p, now)[k].id == a);
            }
            if has_id(live_at(p, now), a) {
                let k = choose|k: int| 0 <= k < live_at(p, now).len() && live_at(p, now)[k].id == a;
                assert(k < l0.len());
                assert(l0[k].id == a);
            }
        } else {
            if has_id(e0, a) {
                let k = choose|k: int| 0 <= k < e0.len() && e0[k].id == a;
                assert(expired_at(p, now)[k].id == a);
            }
            if has_id(expired_at(p, now), a) {
                let k = choose|k: int|
                    0 <= k < expired_at(p, now).len() && expired_at(p, now)[k].id == a;
                assert(k < e0.len());
                assert(e0[k].id == a);
            }
        }
    }
}

proof fn lemma_expired_at_sub(p: Seq<PendingRequest>, now: u64)
    ensures
        forall|k: int|
            0 <= k < expired_at(p, now).len() ==> now >= expired_at(p, now)[k].deadline
                && p.contains(#[trigger] expired_at(p, now)[k]),
    decreases p.len(),
{
    if p.len() > 0 {
        let init = p.drop_last();
        lemma_expired_at_sub(init, now);
        let rest = expired_at(init, now);
        assert forall|k: int| 0 <= k < rest.len() implies p.contains(#[trigger] rest[k]) by {
            let j = choose|j: int| 0 <= j < init.len() && init[j] == rest[k];
            assert(p[j] == rest[k]);
        }
        assert(p[p.len() - 1] == p.last());
    }
}

/// A burst of requests leaves no entry behind: once every request of the
/// burst (`fresh`, registered after `p`) has been answered, in any order and
/// with stray answers to unknown ids among them, the table is the one from
/// before the burst.
pub proof fn lemma_burst_leaves_table(p: Seq<PendingRequest>, fresh: Seq<PendingRequest>, order: Seq<u64>)
    requires
        forall|k: int| 0 <= k < order.len() ==> !has_id(p, order[k]),
        forall|k: int| 0 <= k < fresh.len() ==> order.contains(fresh[k].id),
    ensures
        without_ids(p + fresh, order) == p,
        without_ids(p + fresh, order).len() == p.len(),
{
    lemma_without_ids_append(p, fresh, order);
    lemma_without_ids_sub(fresh, order);
    let r = without_ids(fresh, order);
    if r.len() > 0 {
        let j = choose|j: int| 0 <= j < fresh.len() && fresh[j] == r[0];
        assert(order.contains(fresh[j].id));
    }
    assert(r.len() == 0);
    assert(p + r =~= p);
}

proof fn lemma_live_at_append(p: Seq<PendingRequest>, f: Seq<PendingRequest>, now: u64)
    ensures
        live_at(p + f, now) == live_at(p, now) + live_at(f, now),
    decreases f.len(),
{
    if f.len() == 0 {
        assert(p + f =~= p);
        assert(live_at(p, now) + live_at(f, now) =~= live_at(p, now));
    } else {
        lemma_live_at_append(p, f.drop_last(), now);
        assert((p + f).drop_last() =~= p + f.drop_last());
        assert((p + f).last() == f.last());
        if now < f.last().deadline {
            assert(live_at(p, now) + live_at(f.drop_last(), now).push(f.last()) =~= (live_at(p, now)
                + live_at(f.drop_last(), now)).push(f.last()));
        }
    }
}

proof fn lemma_live_at_all(p: Seq<PendingRequest>, now: u64)
    requires
        forall|k: int| 0 <= k < p.len() ==> now < #[trigger] p[k].deadline,
    ensures
        live_at(p, now) == p,
    decreases p.len(),
{
    if p.len() > 0 {
        lemma_live_at_all(p.drop_last(), now);
        assert(p[p.len() - 1] == p.last());
        assert(p.drop_last().push(p.last()) =~= p);
    }
}

proof fn lemma_live_at_none(p: Seq<PendingRequest>, now: u64)
    requires
        forall|k: int| 0 <= k < p.len() ==> now >= #[trigger] p[k].deadline,
    ensures
        live_at(p, now).len() == 0,
    decreases p.len(),
{
    if p.len() > 0 {
        lemma_live_at_none(p.drop_last(), now);
        assert(p[p.len() - 1] == p.last());
    }
}

/// A burst of requests that all time out leaves no entry behind either: when
/// the clock has passed the deadline of every request of the burst (`fresh`)
/// and none of those from before it (`p`), the table that the timeouts leave
/// is the one from before the burst.
pub proof fn lemma_burst_expires(p: Seq<PendingRequest>, fresh: Seq<PendingRequest>, now: u64)
    requires
        forall|k: int| 0 <= k < p.len() ==> now < #[trigger] p[k].deadline,
        forall|k: int| 0 <= k < fresh.len() ==> now >= #[trigger] fresh[k].deadline,
    ensures
        live_at(p + fresh, now) == p,
{
    lemma_live_at_append(p, fresh, now);
    lemma_live_at_all(p, now);
    lemma_live_at_none(fresh, now);
    assert(p + live_at(fresh, now) =~= p);
}

} // verus!
