//! Bounded UDP associations that the relay node keeps for QUIC datagrams.
//!
//! Each association ties one datagram session to one destination. A session
//! never changes destination, the number of live associations never exceeds
//! the configured limit, and an association idle for longer than the idle
//! timeout is dropped the next time idle ones are pruned. Times are
//! milliseconds of the caller's monotonic clock.
use vstd::prelude::*;

use crate::datagram::{spec_decode_datagram, Datagram, DatagramSessionId, DatagramView};
use crate::net::{socket_address_equal, AddressView, SocketAddress};
use crate::node::{DatagramRelayConfig, DatagramRelayConfigError, DatagramRelayError};
use crate::server::DestinationPolicy;

verus! {

/// A client datagram that may be relayed: its session, destination and payload.
pub struct ForwardRequest {
    pub session_id: DatagramSessionId,
    pub destination: SocketAddress,
    pub payload: Vec<u8>,
}

/// Decodes one datagram from a client and admits it: it must decode, travel
/// from client to server, and name a destination the policy allows.
pub fn admit_forward(encoded: &[u8], destinations: &DestinationPolicy) -> (admitted: Result<
    ForwardRequest,
    DatagramRelayError,
>)
    ensures
        match spec_decode_datagram(encoded@) {
            Err(_) => admitted == Err::<ForwardRequest, DatagramRelayError>(
                DatagramRelayError::Malformed,
            ),
            Ok(DatagramView::ServerToClient { .. }) => admitted == Err::<
                ForwardRequest,
                DatagramRelayError,
            >(DatagramRelayError::UnexpectedDirection),
            Ok(DatagramView::ClientToServer { credential, session_id, destination, payload }) => {
                if destinations.spec_allowed().contains(destination) {
                    admitted matches Ok(request) && request.session_id@ == session_id
                        && request.destination@ == destination && request.payload@ == payload
                } else {
                    admitted == Err::<ForwardRequest, DatagramRelayError>(
                        DatagramRelayError::DestinationRejected,
                    )
                }
            },
        },
{
    match Datagram::decode(encoded) {
        Ok(Datagram::ClientToServer { credential: _, session_id, destination, payload }) => {
            if !destinations.allows(&destination) {
                return Err(DatagramRelayError::DestinationRejected);
            }
            Ok(ForwardRequest { session_id, destination, payload })
        },
        Ok(Datagram::ServerToClient { .. }) => Err(DatagramRelayError::UnexpectedDirection),
        Err(_) => Err(DatagramRelayError::Malformed),
    }
}

/// One live association and the caller's resources for it.
pub struct Association<A> {
    pub session_id: u64,
    pub destination: SocketAddress,
    pub last_active: u64,
    pub entry: A,
}

/// Milliseconds since `last_active`; none when the clock reads earlier.
pub open spec fn elapsed(now: u64, last_active: u64) -> int {
    if now >= last_active {
        now - last_active
    } else {
        0
    }
}

/// The association has been idle for no longer than the timeout.
pub open spec fn still_active<A>(now: u64, idle_timeout: u64) -> spec_fn(Association<A>) -> bool {
    |a: Association<A>| elapsed(now, a.last_active) <= idle_timeout
}

/// The association has been idle for longer than the timeout.
pub open spec fn gone_idle<A>(now: u64, idle_timeout: u64) -> spec_fn(Association<A>) -> bool {
    |a: Association<A>| elapsed(now, a.last_active) > idle_timeout
}

/// No two associations share a session.
pub open spec fn sessions_unique<A>(entries: Seq<Association<A>>) -> bool {
    forall|i: int, j: int|
        0 <= i < j < entries.len() ==> entries[i].session_id != entries[j].session_id
}

/// Some association belongs to `session_id`.
pub open spec fn holds_session<A>(entries: Seq<Association<A>>, session_id: u64) -> bool {
    exists|i: int| 0 <= i < entries.len() && #[trigger] entries[i].session_id == session_id
}

/// The association that belongs to `session_id`, when one does.
pub open spec fn session_entry<A>(entries: Seq<Association<A>>, session_id: u64) -> Association<A> {
    entries[choose|i: int| 0 <= i < entries.len() && #[trigger] entries[i].session_id == session_id]
}

/// The caller's resources of each association, in order.
pub open spec fn entries_of<A>(entries: Seq<Association<A>>) -> Seq<A> {
    entries.map_values(|a: Association<A>| a.entry)
}

/// The live associations of one relayed connection.
pub struct DatagramAssociations<A> {
    max_associations: usize,
    idle_timeout: u64,
    entries: Vec<Association<A>>,
}

proof fn lemma_session_entry_at<A>(entries: Seq<Association<A>>, i: int)
    requires
        sessions_unique(entries),
        0 <= i < entries.len(),
    ensures
        holds_session(entries, entries[i].session_id),
        session_entry(entries, entries[i].session_id) == entries[i],
{
    assert(holds_session(entries, entries[i].session_id));
}

proof fn lemma_filter_sessions_unique<A>(entries: Seq<Association<A>>, pred: spec_fn(Association<A>) -> bool)
    requires
        sessions_unique(entries),
    ensures
        sessions_unique(entries.filter(pred)),
    decreases entries.len(),
{
    reveal(Seq::filter);
    if entries.len() > 0 {
        let rest = entries.drop_last();
        lemma_filter_sessions_unique(rest, pred);
        let rf = rest.filter(pred);
        if pred(entries.last()) {
            let f = rf.push(entries.last());
            assert forall|a: int| 0 <= a < rf.len() implies rf[a].session_id
                != entries.last().session_id by {
                assert(rf.contains(rf[a]));
                rest.lemma_filter_contains_rev(pred, rf[a]);
                let k = choose|k: int| 0 <= k < rest.len() && rest[k] == rf[a];
                assert(entries[k] == rest[k]);
            }
            assert forall|a: int, b: int| 0 <= a < b < f.len() implies f[a].session_id
                != f[b].session_id by {
                assert(f[a] == rf[a]);
                if b < f.len() - 1 {
                    assert(f[b] == rf[b]);
                }
            }
        }
    }
}

impl<A> DatagramAssociations<A> {
    pub closed spec fn associations(&self) -> Seq<Association<A>> {
        self.entries@
    }

    pub closed spec fn limit(&self) -> usize {
        self.max_associations
    }

    pub closed spec fn timeout(&self) -> u64 {
        self.idle_timeout
    }

    /// Sessions are unique and the limit holds.
    pub open spec fn wf(&self) -> bool {
        &&& sessions_unique(self.associations())
        &&& self.associations().len() <= self.limit()
    }

    /// An empty table under a validated configuration.
    pub fn new(config: &DatagramRelayConfig) -> (table: Result<Self, DatagramRelayConfigError>)
        ensures
            match table {
                Ok(t) => config.max_associations > 0 && config.idle_timeout > 0
                    && config.receive_buffer_bytes > 0 && t.wf() && t.associations().len() == 0
                    && t.limit() == config.max_associations && t.timeout() == config.idle_timeout,
                Err(e) => if config.max_associations == 0 {
                    e == DatagramRelayConfigError::AssociationLimit
                } else if config.idle_timeout == 0 {
                    e == DatagramRelayConfigError::IdleTimeout
                } else {
                    config.receive_buffer_bytes == 0 && e == DatagramRelayConfigError::ReceiveBuffer
                },
            },
    {
        match config.validate() {
            Ok(()) => Ok(
                DatagramAssociations {
                    max_associations: config.max_associations,
                    idle_timeout: config.idle_timeout,
                    entries: Vec::new(),
                },
            ),
            Err(e) => Err(e),
        }
    }

    /// Number of live associations.
    pub fn len(&self) -> (count: usize)
        ensures
            count == self.associations().len(),
    {
        self.entries.len()
    }

    fn index_of(&self, session_id: u64) -> (index: Option<usize>)
        ensures
            index matches Some(i) ==> i < self.associations().len()
                && self.associations()[i as int].session_id == session_id,
            index is None ==> !holds_session(self.associations(), session_id),
    {
        let mut i: usize = 0;
        while i < self.entries.len()
            invariant
                i <= self.entries@.len(),
                forall|k: int| 0 <= k < i ==> self.entries@[k].session_id != session_id,
            decreases self.entries@.len() - i,
        {
            if self.entries[i].session_id == session_id {
                return Some(i);
            }
            i = i + 1;
        }
        None
    }

    /// The association a datagram of `session_id` to `destination` goes through:
    /// the session's own when it has one with that destination, none when it has
    /// none and there is room for one, and a refusal when the session is bound
    /// to another destination or the table is full.
    pub fn existing(&self, session_id: u64, destination: &SocketAddress) -> (found: Result<
        Option<&A>,
        DatagramRelayError,
    >)
        requires
            self.wf(),
        ensures
            holds_session(self.associations(), session_id) && session_entry(
                self.associations(),
                session_id,
            ).destination@ == destination@ ==> (found matches Ok(Some(entry)) && *entry
                == session_entry(self.associations(), session_id).entry),
            holds_session(self.associations(), session_id) && session_entry(
                self.associations(),
                session_id,
            ).destination@ != destination@ ==> found == Err::<Option<&A>, DatagramRelayError>(
                DatagramRelayError::SessionTargetMismatch,
            ),
            !holds_session(self.associations(), session_id) && self.associations().len()
                >= self.limit() ==> found == Err::<Option<&A>, DatagramRelayError>(
                DatagramRelayError::AssociationLimit,
            ),
            !holds_session(self.associations(), session_id) && self.associations().len()
                < self.limit() ==> found == Ok::<Option<&A>, DatagramRelayError>(None),
    {
        match self.index_of(session_id) {
            Some(i) => {
                proof {
                    lemma_session_entry_at(self.entries@, i as int);
                }
                if socket_address_equal(&self.entries[i].destination, destination) {
                    Ok(Some(&self.entries[i].entry))
                } else {
                    Err(DatagramRelayError::SessionTargetMismatch)
                }
            },
            None => {
                if self.entries.len() >= self.max_associations {
                    Err(DatagramRelayError::AssociationLimit)
                } else {
                    Ok(None)
                }
            },
        }
    }

    /// Records a new association, active now, for a session that has none.
    pub fn insert(&mut self, session_id: u64, destination: SocketAddress, now: u64, entry: A)
        requires
            old(self).wf(),
            !holds_session(old(self).associations(), session_id),
            old(self).associations().len() < old(self).limit(),
        ensures
            final(self).wf(),
            final(self).limit() == old(self).limit(),
            final(self).timeout() == old(self).timeout(),
            final(self).associations() == old(self).associations().push(
                Association { session_id, destination, last_active: now, entry },
            ),
    {
        let ghost before = self.entries@;
        self.entries.push(Association { session_id, destination, last_active: now, entry });
        proof {
            assert forall|i: int, j: int| 0 <= i < j < self.entries@.len() implies self.entries@[i].session_id
                != self.entries@[j].session_id by {
                if j == before.len() {
                    assert(self.entries@[i] == before[i]);
                    assert(before[i].session_id != session_id);
                } else {
                    assert(self.entries@[i] == before[i] && self.entries@[j] == before[j]);
                }
            }
        }
    }

    /// Marks the session's association active now; reports whether it has one.
    pub fn touch(&mut self, session_id: u64, now: u64) -> (touched: bool)
        requires
            old(self).wf(),
        ensures
            final(self).wf(),
            final(self).limit() == old(self).limit(),
            final(self).timeout() == old(self).timeout(),
            touched == holds_session(old(self).associations(), session_id),
            !touched ==> final(self).associations() == old(self).associations(),
            touched ==> exists|i: int|
                0 <= i < old(self).associations().len() && old(self).associations()[i].session_id
                    == session_id && final(self).associations() == old(self).associations().update(
                    i,
                    Association { last_active: now, ..old(self).associations()[i] },
                ),
    {
        match self.index_of(session_id) {
            Some(i) => {
                let ghost before = self.entries@;
                let mut association = self.entries.remove(i);
                association.last_active = now;
                self.entries.insert(i, association);
                proof {
                    assert(self.entries@ =~= before.update(
                        i as int,
                        Association { last_active: now, ..before[i as int] },
                    ));
                    assert forall|a: int, b: int| 0 <= a < b < self.entries@.len() implies self.entries@[a].session_id
                        != self.entries@[b].session_id by {
                        assert(self.entries@[a].session_id == before[a].session_id);
                        assert(self.entries@[b].session_id == before[b].session_id);
                    }
                }
                true
            },
            None => false,
        }
    }

    /// Drops every association idle for longer than the timeout at `now` and
    /// hands their resources back, in order, for the caller to release.
    pub fn prune_idle(&mut self, now: u64) -> (dropped: Vec<A>)
        requires
            old(self).wf(),
        ensures
            final(self).wf(),
            final(self).limit() == old(self).limit(),
            final(self).timeout() == old(self).timeout(),
            final(self).associations() == old(self).associations().filter(
                still_active::<A>(now, old(self).timeout()),
            ),
            dropped@ == entries_of(
                old(self).associations().filter(gone_idle::<A>(now, old(self).timeout())),
            ),
    {
        let ghost initial = self.entries@;
        let timeout = self.idle_timeout;
        let mut rest: Vec<Association<A>> = Vec::new();
        std::mem::swap(&mut rest, &mut self.entries);
        let mut kept: Vec<Association<A>> = Vec::new();
        let mut dropped: Vec<A> = Vec::new();
        let ghost mut done: int = 0;
        while rest.len() > 0
            invariant
                0 <= done <= initial.len(),
                rest@ == initial.subrange(done, initial.len() as int),
                kept@ == initial.subrange(0, done).filter(still_active::<A>(now, timeout)),
                dropped@ == entries_of(initial.subrange(0, done).filter(gone_idle::<A>(now, timeout))),
            decreases rest@.len(),
        {
            let association = rest.remove(0);
            proof {
                let prefix = initial.subrange(0, done);
                let next = initial.subrange(0, done + 1);
                assert(next.drop_last() =~= prefix);
                assert(next.last() == association);
                reveal(Seq::filter);
                done = done + 1;
                assert(rest@ =~= initial.subrange(done, initial.len() as int));
            }
            let idle = if now >= association.last_active {
                now - association.last_active > timeout
            } else {
                false
            };
            if idle {
                proof {
                    let before = initial.subrange(0, done - 1).filter(gone_idle::<A>(now, timeout));
                    assert(entries_of(before.push(association)) =~= entries_of(before).push(
                        association.entry,
                    ));
                }
                dropped.push(association.entry);
            } else {
                kept.push(association);
            }
        }
        proof {
            assert(initial.subrange(0, done) =~= initial);
            lemma_filter_sessions_unique(initial, still_active::<A>(now, timeout));
            initial.lemma_filter_len(still_active::<A>(now, timeout));
        }
        self.entries = kept;
        dropped
    }

    /// Drops every association and hands all their resources back, in order.
    pub fn shutdown(&mut self) -> (dropped: Vec<A>)
        requires
            old(self).wf(),
        ensures
            final(self).wf(),
            final(self).limit() == old(self).limit(),
            final(self).timeout() == old(self).timeout(),
            final(self).associations().len() == 0,
            dropped@ == entries_of(old(self).associations()),
    {
        let ghost original = self.entries@;
        let mut rest: Vec<Association<A>> = Vec::new();
        std::mem::swap(&mut rest, &mut self.entries);
        let mut dropped: Vec<A> = Vec::new();
        let ghost mut done: int = 0;
        while rest.len() > 0
            invariant
                0 <= done <= original.len(),
                rest@ == original.subrange(done, original.len() as int),
                dropped@ == entries_of(original.subrange(0, done)),
            decreases rest@.len(),
        {
            let association = rest.remove(0);
            proof {
                assert(entries_of(original.subrange(0, done + 1)) =~= entries_of(
                    original.subrange(0, done),
                ).push(association.entry));
                done = done + 1;
                assert(rest@ =~= original.subrange(done, original.len() as int));
            }
            dropped.push(association.entry);
        }
        proof {
            assert(original.subrange(0, done) =~= original);
        }
        dropped
    }
}

} // verus!
