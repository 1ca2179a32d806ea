//! Control-plane events: the messages the RPC listener drops into the
//! event loop's mailbox, and the handlers that apply them to the routing
//! table.  The mailbox, the reply channels and the loop itself are I/O
//! and live with the caller; what is here is everything an event does.

use vstd::prelude::*;

use crate::backend::{Backend, BackendV};
use crate::storage::{lemma_put_then_get, spec_delete, spec_lookup, spec_put, Storage};

verus! {

/// A routing-table mutation or query, stripped of its reply channel.
#[derive(Debug)]
pub enum Event {
    /// Snapshot all backends, sorted by hostname.
    ListBackends,
    /// Insert or overwrite a backend under its hostname.
    PutBackend(Backend),
    /// Remove the entry for this backend's hostname, if any.
    DeleteBackend(Backend),
}

/// The mathematical content of an event.
pub enum EventV {
    ListBackends,
    PutBackend(BackendV),
    DeleteBackend(BackendV),
}

impl View for Event {
    type V = EventV;

    closed spec fn view(&self) -> EventV {
        match self {
            Event::ListBackends => EventV::ListBackends,
            Event::PutBackend(b) => EventV::PutBackend(b@),
            Event::DeleteBackend(b) => EventV::DeleteBackend(b@),
        }
    }
}

/// What one event leaves of the table.
pub open spec fn spec_apply(s: Seq<BackendV>, e: EventV) -> Seq<BackendV> {
    match e {
        EventV::ListBackends => s,
        EventV::PutBackend(b) => spec_put(s, b),
        EventV::DeleteBackend(b) => spec_delete(s, b.hostname),
    }
}

/// The table after a queue of events, processed front to back.
pub open spec fn spec_apply_all(s: Seq<BackendV>, evs: Seq<EventV>) -> Seq<BackendV>
    decreases evs.len(),
{
    if evs.len() == 0 {
        s
    } else {
        spec_apply_all(spec_apply(s, evs[0]), evs.drop_first())
    }
}

/// Law: events act in enqueue order.  A queue with one more event at its
/// back leaves the table that processing the queue, then that event,
/// leaves: the table never reflects a later event before an earlier one.
pub proof fn lemma_events_in_order(s: Seq<BackendV>, evs: Seq<EventV>, e: EventV)
    ensures
        spec_apply_all(s, evs.push(e)) == spec_apply(spec_apply_all(s, evs), e),
    decreases evs.len(),
{
    let p = evs.push(e);
    if evs.len() == 0 {
        assert(p[0] == e);
        assert(p.drop_first() =~= evs);
        assert(spec_apply_all(s, p) == spec_apply_all(spec_apply(s, e), evs));
        assert(spec_apply_all(spec_apply(s, e), evs) == spec_apply(s, e));
    } else {
        assert(p[0] == evs[0]);
        assert(p.drop_first() =~= evs.drop_first().push(e));
        lemma_events_in_order(spec_apply(s, evs[0]), evs.drop_first(), e);
        assert(spec_apply_all(s, p) == spec_apply_all(spec_apply(s, evs[0]), p.drop_first()));
        assert(spec_apply_all(s, evs) == spec_apply_all(spec_apply(s, evs[0]), evs.drop_first()));
    }
}

/// Law: once a put's reply is out, the put is in the table, so any
/// lookup that runs after it — in particular a connection whose
/// handshake is read after the reply was observed — finds the new
/// backend, whole.
pub proof fn lemma_put_reply_then_lookup(s: Seq<BackendV>, b: BackendV)
    ensures
        spec_lookup(spec_apply(s, EventV::PutBackend(b)), b.hostname) == Some(b),
{
    lemma_put_then_get(s, b);
}

/// Applies a put event to the table.
pub struct PutBackendHandler {}

impl PutBackendHandler {
    /// Inserts the backend; the reply the event carries back is always
    /// success.
    pub fn handle(storage: &mut Storage, backend: Backend)
        requires
            old(storage).wf(),
        ensures
            final(storage).wf(),
            final(storage)@ == spec_put(old(storage)@, backend@),
    {
        storage.add_backend(backend);
    }
}

/// Applies a delete event to the table.
pub struct DeleteBackendHandler {}

impl DeleteBackendHandler {
    /// Removes the entry under the backend's hostname; deleting an
    /// absent hostname succeeds and changes nothing.
    pub fn handle(storage: &mut Storage, backend: &Backend)
        requires
            old(storage).wf(),
        ensures
            final(storage).wf(),
            final(storage)@ == spec_delete(old(storage)@, backend@.hostname),
    {
        storage.remove_backend(backend.hostname());
    }
}

/// Answers a list event from the table.
pub struct ListBackendHandler {}

impl ListBackendHandler {
    /// A snapshot of all backends, ascending by hostname.
    pub fn handle(storage: &Storage) -> (r: Vec<Backend>)
        ensures
            r@.len() == storage@.len(),
            forall|i: int| 0 <= i < storage@.len() ==> (#[trigger] r@[i])@ == storage@[i],
    {
        let entries = storage.get_backends();
        let mut out: Vec<Backend> = Vec::new();
        let mut i: usize = 0;
        while i < entries.len()
            invariant
                i <= entries@.len(),
                entries@.len() == storage@.len(),
                forall|j: int| 0 <= j < entries@.len() ==> (#[trigger] entries@[j])@ == storage@[j],
                out@.len() == i,
                forall|j: int| 0 <= j < i ==> (#[trigger] out@[j])@ == storage@[j],
            decreases entries@.len() - i,
        {
            let e: &Backend = &entries[i];
            out.push(e.clone());
            i += 1;
        }
        out
    }
}

/// The value an event's reply channel carries back.
#[derive(Debug)]
pub enum EventReply {
    /// The sorted snapshot a list event asked for.
    Backends(Vec<Backend>),
    /// A put or delete finished; both always succeed.
    Done,
}

/// Processes one event against the table and produces its reply: the
/// whole effect of one turn of the event loop, with the channel ends
/// left to the caller.
pub fn handle_event(storage: &mut Storage, event: Event) -> (r: EventReply)
    requires
        old(storage).wf(),
    ensures
        final(storage).wf(),
        final(storage)@ == spec_apply(old(storage)@, event@),
        match event@ {
            EventV::ListBackends => {
                &&& r matches EventReply::Backends(bs)
                &&& bs@.len() == old(storage)@.len()
                &&& forall|i: int|
                    0 <= i < old(storage)@.len() ==> (#[trigger] bs@[i])@ == old(storage)@[i]
            },
            EventV::PutBackend(_) => r is Done,
            EventV::DeleteBackend(_) => r is Done,
        },
{
    match event {
        Event::ListBackends => EventReply::Backends(ListBackendHandler::handle(storage)),
        Event::PutBackend(b) => {
            PutBackendHandler::handle(storage, b);
            EventReply::Done
        },
        Event::DeleteBackend(b) => {
            DeleteBackendHandler::handle(storage, &b);
            EventReply::Done
        },
    }
}

} // verus!
