//! Opaque handles handed to platform callers for clients, streams and engines.
//!
//! One counter issues every handle, so a handle names at most one entry of any
//! kind and is never issued twice; when the counter is exhausted no handle is
//! issued at all.
use vstd::prelude::*;

verus! {

/// The handles of `entries` rise strictly, and each lies in `1..=last`.
pub open spec fn handles_below<T>(entries: Seq<(u64, T)>, last: u64) -> bool {
    &&& forall|i: int, j: int| 0 <= i < j < entries.len() ==> entries[i].0 < entries[j].0
    &&& forall|i: int| 0 <= i < entries.len() ==> 1 <= #[trigger] entries[i].0 <= last
}

/// Some entry carries handle `handle`.
pub open spec fn holds_handle<T>(entries: Seq<(u64, T)>, handle: u64) -> bool {
    exists|i: int| 0 <= i < entries.len() && #[trigger] entries[i].0 == handle
}

/// The entry that carries `handle`, if any.
pub open spec fn entry_of<T>(entries: Seq<(u64, T)>, handle: u64) -> Option<T> {
    if holds_handle(entries, handle) {
        Some(entries[choose|i: int| 0 <= i < entries.len() && #[trigger] entries[i].0 == handle].1)
    } else {
        None
    }
}

/// A stream entry belongs to the client with handle `client`.
pub open spec fn owned_by<S>(client: u64) -> spec_fn((u64, (u64, S))) -> bool {
    |entry: (u64, (u64, S))| entry.1.0 == client
}

/// A stream entry belongs to another client than `client`.
pub open spec fn not_owned_by<S>(client: u64) -> spec_fn((u64, (u64, S))) -> bool {
    |entry: (u64, (u64, S))| entry.1.0 != client
}

proof fn lemma_entry_at<T>(entries: Seq<(u64, T)>, last: u64, i: int)
    requires
        handles_below(entries, last),
        0 <= i < entries.len(),
    ensures
        entry_of(entries, entries[i].0) == Some(entries[i].1),
{
    let h = entries[i].0;
    assert(holds_handle(entries, h));
    let j = choose|j: int| 0 <= j < entries.len() && #[trigger] entries[j].0 == h;
    if j < i {
        assert(entries[j].0 < entries[i].0);
    } else if i < j {
        assert(entries[i].0 < entries[j].0);
    }
}

proof fn lemma_remove_keeps_order<T>(entries: Seq<(u64, T)>, last: u64, i: int)
    requires
        handles_below(entries, last),
        0 <= i < entries.len(),
    ensures
        handles_below(entries.remove(i), last),
{
    let r = entries.remove(i);
    assert forall|a: int, b: int| 0 <= a < b < r.len() implies r[a].0 < r[b].0 by {
        let a2 = if a < i { a } else { a + 1 };
        let b2 = if b < i { b } else { b + 1 };
        assert(r[a] == entries[a2] && r[b] == entries[b2]);
    }
    assert forall|a: int| 0 <= a < r.len() implies 1 <= #[trigger] r[a].0 <= last by {
        let a2 = if a < i { a } else { a + 1 };
        assert(r[a] == entries[a2]);
    }
}

fn find_index<T>(entries: &Vec<(u64, T)>, handle: u64) -> (index: Option<usize>)
    ensures
        index matches Some(i) ==> i < entries@.len() && entries@[i as int].0 == handle,
        index is None ==> !holds_handle(entries@, handle),
{
    let mut i: usize = 0;
    while i < entries.len()
        invariant
            i <= entries@.len(),
            forall|k: int| 0 <= k < i ==> entries@[k].0 != handle,
        decreases entries@.len() - i,
    {
        if entries[i].0 == handle {
            return Some(i);
        }
        i = i + 1;
    }
    None
}

fn take_entry<T>(entries: &mut Vec<(u64, T)>, handle: u64, Ghost(last): Ghost<u64>) -> (taken: Option<T>)
    requires
        handles_below(old(entries)@, last),
    ensures
        taken == entry_of(old(entries)@, handle),
        handles_below(final(entries)@, last),
        taken is None ==> final(entries)@ == old(entries)@,
        taken is Some ==> exists|i: int|
            0 <= i < old(entries)@.len() && old(entries)@[i].0 == handle && final(entries)@
                == old(entries)@.remove(i),
{
    match find_index(entries, handle) {
        Some(i) => {
            proof {
                lemma_entry_at(entries@, last, i as int);
                lemma_remove_keeps_order(entries@, last, i as int);
            }
            let (_, entry) = entries.remove(i);
            Some(entry)
        },
        None => None,
    }
}

/// The table of live handles, with the entries the caller keeps for each.
pub struct HandleTable<C, S, E> {
    next_handle: u64,
    clients: Vec<(u64, C)>,
    streams: Vec<(u64, (u64, S))>,
    engines: Vec<(u64, E)>,
}

impl<C, S, E> HandleTable<C, S, E> {
    /// The last handle issued; zero before the first.
    pub closed spec fn last_issued(&self) -> u64 {
        self.next_handle
    }

    /// Client entries by handle, in the order they were issued.
    pub closed spec fn client_entries(&self) -> Seq<(u64, C)> {
        self.clients@
    }

    /// Stream entries by handle, each with the handle of its client.
    pub closed spec fn stream_entries(&self) -> Seq<(u64, (u64, S))> {
        self.streams@
    }

    /// Engine entries by handle, in the order they were issued.
    pub closed spec fn engine_entries(&self) -> Seq<(u64, E)> {
        self.engines@
    }

    /// Every live handle was issued by this table, and none twice.
    pub open spec fn wf(&self) -> bool {
        &&& handles_below(self.client_entries(), self.last_issued())
        &&& handles_below(self.stream_entries(), self.last_issued())
        &&& handles_below(self.engine_entries(), self.last_issued())
    }

    /// An empty table that has issued no handle yet.
    pub fn new() -> (table: Self)
        ensures
            table.wf(),
            table.last_issued() == 0,
            table.client_entries().len() == 0,
            table.stream_entries().len() == 0,
            table.engine_entries().len() == 0,
    {
        HandleTable { next_handle: 0, clients: Vec::new(), streams: Vec::new(), engines: Vec::new() }
    }

    /// An empty table whose last issued handle is `last_issued`.
    pub fn after_handle(last_issued: u64) -> (table: Self)
        ensures
            table.wf(),
            table.last_issued() == last_issued,
            table.client_entries().len() == 0,
            table.stream_entries().len() == 0,
            table.engine_entries().len() == 0,
    {
        HandleTable {
            next_handle: last_issued,
            clients: Vec::new(),
            streams: Vec::new(),
            engines: Vec::new(),
        }
    }

    /// Issues the next handle, or nothing once the counter is exhausted.
    pub fn next(&mut self) -> (handle: Option<u64>)
        requires
            old(self).wf(),
        ensures
            final(self).wf(),
            final(self).client_entries() == old(self).client_entries(),
            final(self).stream_entries() == old(self).stream_entries(),
            final(self).engine_entries() == old(self).engine_entries(),
            old(self).last_issued() == u64::MAX ==> handle is None && final(self).last_issued()
                == u64::MAX,
            old(self).last_issued() < u64::MAX ==> handle == Some((old(self).last_issued() + 1) as u64)
                && final(self).last_issued() == old(self).last_issued() + 1,
    {
        if self.next_handle == u64::MAX {
            return None;
        }
        self.next_handle = self.next_handle + 1;
        Some(self.next_handle)
    }

    /// Files a client entry under a fresh handle; nothing is filed once the
    /// counter is exhausted.
    pub fn insert_client(&mut self, client: C) -> (handle: Option<u64>)
        requires
            old(self).wf(),
        ensures
            final(self).wf(),
            final(self).stream_entries() == old(self).stream_entries(),
            final(self).engine_entries() == old(self).engine_entries(),
            old(self).last_issued() == u64::MAX ==> handle is None && final(self).client_entries()
                == old(self).client_entries() && final(self).last_issued() == u64::MAX,
            old(self).last_issued() < u64::MAX ==> handle == Some((old(self).last_issued() + 1) as u64)
                && final(self).last_issued() == old(self).last_issued() + 1
                && final(self).client_entries() == old(self).client_entries().push(
                ((old(self).last_issued() + 1) as u64, client),
            ),
    {
        match self.next() {
            Some(handle) => {
                self.clients.push((handle, client));
                Some(handle)
            },
            None => None,
        }
    }

    /// Files a stream entry of the client `client_handle` under a fresh handle;
    /// nothing is filed once the counter is exhausted.
    pub fn insert_stream(&mut self, client_handle: u64, stream: S) -> (handle: Option<u64>)
        requires
            old(self).wf(),
        ensures
            final(self).wf(),
            final(self).client_entries() == old(self).client_entries(),
            final(self).engine_entries() == old(self).engine_entries(),
            old(self).last_issued() == u64::MAX ==> handle is None && final(self).stream_entries()
                == old(self).stream_entries() && final(self).last_issued() == u64::MAX,
            old(self).last_issued() < u64::MAX ==> handle == Some((old(self).last_issued() + 1) as u64)
                && final(self).last_issued() == old(self).last_issued() + 1
                && final(self).stream_entries() == old(self).stream_entries().push(
                ((old(self).last_issued() + 1) as u64, (client_handle, stream)),
            ),
    {
        match self.next() {
            Some(handle) => {
                self.streams.push((handle, (client_handle, stream)));
                Some(handle)
            },
            None => None,
        }
    }

    /// Files an engine entry under a fresh handle; nothing is filed once the
    /// counter is exhausted.
    pub fn insert_engine(&mut self, engine: E) -> (handle: Option<u64>)
        requires
            old(self).wf(),
        ensures
            final(self).wf(),
            final(self).client_entries() == old(self).client_entries(),
            final(self).stream_entries() == old(self).stream_entries(),
            old(self).last_issued() == u64::MAX ==> handle is None && final(self).engine_entries()
                == old(self).engine_entries() && final(self).last_issued() == u64::MAX,
            old(self).last_issued() < u64::MAX ==> handle == Some((old(self).last_issued() + 1) as u64)
                && final(self).last_issued() == old(self).last_issued() + 1
                && final(self).engine_entries() == old(self).engine_entries().push(
                ((old(self).last_issued() + 1) as u64, engine),
            ),
    {
        match self.next() {
            Some(handle) => {
                self.engines.push((handle, engine));
                Some(handle)
            },
            None => None,
        }
    }

    /// The client entry filed under `handle`, if any.
    pub fn client(&self, handle: u64) -> (found: Option<&C>)
        requires
            self.wf(),
        ensures
            match found {
                Some(entry) => entry_of(self.client_entries(), handle) == Some(*entry),
                None => entry_of(self.client_entries(), handle) is None,
            },
    {
        match find_index(&self.clients, handle) {
            Some(i) => {
                proof {
                    lemma_entry_at(self.clients@, self.next_handle, i as int);
                }
                Some(&self.clients[i].1)
            },
            None => None,
        }
    }

    /// The stream entry filed under `handle`, with the handle of its client.
    pub fn stream(&self, handle: u64) -> (found: Option<&(u64, S)>)
        requires
            self.wf(),
        ensures
            match found {
                Some(entry) => entry_of(self.stream_entries(), handle) == Some(*entry),
                None => entry_of(self.stream_entries(), handle) is None,
            },
    {
        match find_index(&self.streams, handle) {
            Some(i) => {
                proof {
                    lemma_entry_at(self.streams@, self.next_handle, i as int);
                }
                Some(&self.streams[i].1)
            },
            None => None,
        }
    }

    /// The engine entry filed under `handle`, if any.
    pub fn engine(&self, handle: u64) -> (found: Option<&E>)
        requires
            self.wf(),
        ensures
            match found {
                Some(entry) => entry_of(self.engine_entries(), handle) == Some(*entry),
                None => entry_of(self.engine_entries(), handle) is None,
            },
    {
        match find_index(&self.engines, handle) {
            Some(i) => {
                proof {
                    lemma_entry_at(self.engines@, self.next_handle, i as int);
                }
                Some(&self.engines[i].1)
            },
            None => None,
        }
    }

    /// Takes the client entry filed under `handle` out of the table.
    pub fn remove_client(&mut self, handle: u64) -> (removed: Option<C>)
        requires
            old(self).wf(),
        ensures
            final(self).wf(),
            removed == entry_of(old(self).client_entries(), handle),
            final(self).last_issued() == old(self).last_issued(),
            final(self).stream_entries() == old(self).stream_entries(),
            final(self).engine_entries() == old(self).engine_entries(),
            removed is None ==> final(self).client_entries() == old(self).client_entries(),
            removed is Some ==> exists|i: int|
                0 <= i < old(self).client_entries().len() && old(self).client_entries()[i].0
                    == handle && final(self).client_entries() == old(
                    self,
                ).client_entries().remove(i),
    {
        take_entry(&mut self.clients, handle, Ghost(self.next_handle))
    }

    /// Takes the stream entry filed under `handle` out of the table.
    pub fn remove_stream(&mut self, handle: u64) -> (removed: Option<(u64, S)>)
        requires
            old(self).wf(),
        ensures
            final(self).wf(),
            removed == entry_of(old(self).stream_entries(), handle),
            final(self).last_issued() == old(self).last_issued(),
            final(self).client_entries() == old(self).client_entries(),
            final(self).engine_entries() == old(self).engine_entries(),
            removed is None ==> final(self).stream_entries() == old(self).stream_entries(),
            removed is Some ==> exists|i: int|
                0 <= i < old(self).stream_entries().len() && old(self).stream_entries()[i].0
                    == handle && final(self).stream_entries() == old(
                    self,
                ).stream_entries().remove(i),
    {
        take_entry(&mut self.streams, handle, Ghost(self.next_handle))
    }

    /// Takes the engine entry filed under `handle` out of the table.
    pub fn remove_engine(&mut self, handle: u64) -> (removed: Option<E>)
        requires
            old(self).wf(),
        ensures
            final(self).wf(),
            removed == entry_of(old(self).engine_entries(), handle),
            final(self).last_issued() == old(self).last_issued(),
            final(self).client_entries() == old(self).client_entries(),
            final(self).stream_entries() == old(self).stream_entries(),
            removed is None ==> final(self).engine_entries() == old(self).engine_entries(),
            removed is Some ==> exists|i: int|
                0 <= i < old(self).engine_entries().len() && old(self).engine_entries()[i].0
                    == handle && final(self).engine_entries() == old(
                    self,
                ).engine_entries().remove(i),
    {
        take_entry(&mut self.engines, handle, Ghost(self.next_handle))
    }

    /// Drops every stream of the client `client_handle` from the table and hands
    /// the dropped entries back, in handle order, for the caller to cancel.
    pub fn invalidate_streams(&mut self, client_handle: u64) -> (dropped: Vec<(u64, (u64, S))>)
        requires
            old(self).wf(),
        ensures
            final(self).wf(),
            final(self).last_issued() == old(self).last_issued(),
            final(self).client_entries() == old(self).client_entries(),
            final(self).engine_entries() == old(self).engine_entries(),
            final(self).stream_entries() == old(self).stream_entries().filter(
                not_owned_by::<S>(client_handle),
            ),
            dropped@ == old(self).stream_entries().filter(owned_by::<S>(client_handle)),
    {
        let ghost original = self.streams@;
        let ghost last = self.next_handle;
        let mut rest: Vec<(u64, (u64, S))> = Vec::new();
        std::mem::swap(&mut rest, &mut self.streams);
        let mut kept: Vec<(u64, (u64, S))> = Vec::new();
        let mut dropped: Vec<(u64, (u64, S))> = Vec::new();
        let ghost mut done: int = 0;
        while rest.len() > 0
            invariant
                0 <= done <= original.len(),
                rest@ == original.subrange(done, original.len() as int),
                kept@ == original.subrange(0, done).filter(not_owned_by::<S>(client_handle)),
                dropped@ == original.subrange(0, done).filter(owned_by::<S>(client_handle)),
            decreases rest@.len(),
        {
            let entry = rest.remove(0);
            proof {
                let prefix = original.subrange(0, done);
                let next = original.subrange(0, done + 1);
                assert(next.drop_last() =~= prefix);
                assert(next.last() == entry);
                reveal(Seq::filter);
                done = done + 1;
                assert(rest@ =~= original.subrange(done, original.len() as int));
            }
            if (entry.1).0 == client_handle {
                dropped.push(entry);
            } else {
                kept.push(entry);
            }
        }
        proof {
            assert(original.subrange(0, done) =~= original);
            lemma_filter_handles_below(original, not_owned_by::<S>(client_handle), last);
        }
        self.streams = kept;
        dropped
    }
}

/// The next handle a table issues names no entry of any kind yet: a handle is
/// never issued twice.
pub proof fn lemma_next_handle_is_fresh<C, S, E>(table: HandleTable<C, S, E>)
    requires
        table.wf(),
        table.last_issued() < u64::MAX,
    ensures
        !holds_handle(table.client_entries(), (table.last_issued() + 1) as u64),
        !holds_handle(table.stream_entries(), (table.last_issued() + 1) as u64),
        !holds_handle(table.engine_entries(), (table.last_issued() + 1) as u64),
{
}

proof fn lemma_filter_handles_below<T>(entries: Seq<(u64, T)>, pred: spec_fn((u64, T)) -> bool, last: u64)
    requires
        handles_below(entries, last),
    ensures
        handles_below(entries.filter(pred), last),
    decreases entries.len(),
{
    reveal(Seq::filter);
    if entries.len() > 0 {
        let rest = entries.drop_last();
        assert(handles_below(rest, last)) by {
            assert forall|i: int| 0 <= i < rest.len() implies 1 <= #[trigger] rest[i].0 <= last by {
                assert(rest[i] == entries[i]);
            }
        }
        lemma_filter_handles_below(rest, pred, last);
        let rf = rest.filter(pred);
        if pred(entries.last()) {
            let f = rf.push(entries.last());
            assert forall|a: int| 0 <= a < rf.len() implies rf[a].0 < entries.last().0 by {
                assert(rf.contains(rf[a]));
                rest.lemma_filter_contains_rev(pred, rf[a]);
                let k = choose|k: int| 0 <= k < rest.len() && rest[k] == rf[a];
                assert(entries[k] == rest[k]);
            }
            assert forall|a: int, b: int| 0 <= a < b < f.len() implies f[a].0 < f[b].0 by {
                assert(f[a] == rf[a]);
                if b < f.len() - 1 {
                    assert(f[b] == rf[b]);
                }
            }
            assert forall|a: int| 0 <= a < f.len() implies 1 <= #[trigger] f[a].0 <= last by {
                if a < f.len() - 1 {
                    assert(f[a] == rf[a]);
                }
            }
        }
    }
}

} // verus!
