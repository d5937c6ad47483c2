use vstd::prelude::*;
use vstd::string::*;
use crate::text::{str_eq, views, lemma_views_push, contains_string};
use crate::urls::{url_parse_parts, url_endpoint_replaced};
use crate::vcp_client::interrupt_url_for_request;

verus! {

broadcast use vstd::string::group_string_axioms;

/// Where and how to ask the server to stop generating a request.
pub struct RemoteInterruptContext {
    pub interrupt_url: String,
    pub api_key: String,
    pub request_id: String,
}

pub open spec fn remote_view(c: RemoteInterruptContext) -> (Seq<char>, Seq<char>, Seq<char>) {
    (c.interrupt_url@, c.api_key@, c.request_id@)
}

/// The cancellation state of one request. It can be created before the request's context
/// and attachments are prepared; the network layer binds the remote interrupt later.
pub struct ActiveRequestControl {
    pub cancelled: bool,
    pub remote_interrupt_sent: bool,
    pub remote_context: Option<RemoteInterruptContext>,
}

/// The remote interrupt is only ever sent for a cancelled request with a bound context.
pub open spec fn control_wf(c: ActiveRequestControl) -> bool {
    c.remote_interrupt_sent ==> (c.cancelled && c.remote_context is Some)
}

/// Whether a control would send its remote interrupt now, were it cancelled.
pub open spec fn interrupt_due(c: ActiveRequestControl) -> bool {
    c.remote_context is Some && !c.remote_interrupt_sent
}

/// What `cancel` does: the request becomes cancelled, `first` says whether it was not yet,
/// and the remote interrupt is sent (`posted`) if it is bound and was not sent before.
pub open spec fn cancel_post(
    old_c: ActiveRequestControl,
    new_c: ActiveRequestControl,
    first: bool,
    posted: bool,
) -> bool {
    &&& first == !old_c.cancelled
    &&& new_c.cancelled
    &&& new_c.remote_context == old_c.remote_context
    &&& posted == interrupt_due(old_c)
    &&& new_c.remote_interrupt_sent == (old_c.remote_interrupt_sent || posted)
}

/// What binding a remote interrupt does: with an interrupt URL the context is stored, and
/// if the request is already cancelled the interrupt is sent (once); without one nothing
/// changes.
pub open spec fn bind_post(
    old_c: ActiveRequestControl,
    new_c: ActiveRequestControl,
    message_id: Seq<char>,
    vcp_url: Seq<char>,
    api_key: Seq<char>,
    posted: bool,
) -> bool {
    if url_parse_parts(vcp_url) is None {
        new_c == old_c && !posted
    } else {
        &&& new_c.cancelled == old_c.cancelled
        &&& new_c.remote_context is Some
        &&& remote_view(new_c.remote_context->0) == (
            url_endpoint_replaced(vcp_url, "/v1/interrupt"@)->0,
            api_key,
            message_id,
        )
        &&& posted == (old_c.cancelled && !old_c.remote_interrupt_sent)
        &&& new_c.remote_interrupt_sent == (old_c.remote_interrupt_sent || posted)
    }
}

/// What a cancellation reports.
pub struct CancelOutcome {
    /// This call switched the request to cancelled.
    pub first: bool,
    /// The remote interrupt to send now, if any.
    pub post_interrupt: Option<RemoteInterruptContext>,
}

fn clone_context(c: &RemoteInterruptContext) -> (r: RemoteInterruptContext)
    ensures
        remote_view(r) == remote_view(*c),
{
    RemoteInterruptContext {
        interrupt_url: c.interrupt_url.clone(),
        api_key: c.api_key.clone(),
        request_id: c.request_id.clone(),
    }
}

impl ActiveRequestControl {
    /// A request that is not cancelled and has no remote interrupt bound.
    pub fn new() -> (c: ActiveRequestControl)
        ensures
            !c.cancelled,
            !c.remote_interrupt_sent,
            c.remote_context is None,
    {
        ActiveRequestControl { cancelled: false, remote_interrupt_sent: false, remote_context: None }
    }

    pub fn is_cancelled(&self) -> (r: bool)
        ensures
            r == self.cancelled,
    {
        self.cancelled
    }

    /// Sends the remote interrupt if one is bound and it was not sent yet.
    fn try_spawn_remote_interrupt(&mut self) -> (r: Option<RemoteInterruptContext>)
        ensures
            r is Some <==> interrupt_due(*old(self)),
            r is Some ==> remote_view(r->0) == remote_view(old(self).remote_context->0),
            final(self).cancelled == old(self).cancelled,
            final(self).remote_context == old(self).remote_context,
            final(self).remote_interrupt_sent == (old(self).remote_interrupt_sent || r is Some),
    {
        match &self.remote_context {
            Some(ctx) => {
                if !self.remote_interrupt_sent {
                    let c = clone_context(ctx);
                    self.remote_interrupt_sent = true;
                    Some(c)
                } else {
                    None
                }
            },
            None => None,
        }
    }

    /// Cancels the request; `first` is true only for the call that switched it to cancelled.
    pub fn cancel(&mut self) -> (r: CancelOutcome)
        ensures
            cancel_post(*old(self), *final(self), r.first, r.post_interrupt is Some),
            r.post_interrupt is Some ==> remote_view(r.post_interrupt->0) == remote_view(
                old(self).remote_context->0,
            ),
    {
        let first = !self.cancelled;
        self.cancelled = true;
        let post = self.try_spawn_remote_interrupt();
        CancelOutcome { first, post_interrupt: post }
    }

    /// Records where the remote interrupt for this request goes; sends it at once if the
    /// request is already cancelled.
    pub fn bind_remote_interrupt(&mut self, message_id: &str, vcp_url: &str, api_key: &str) -> (r:
        Option<RemoteInterruptContext>)
        ensures
            bind_post(*old(self), *final(self), message_id@, vcp_url@, api_key@, r is Some),
            r is Some ==> remote_view(r->0) == remote_view(final(self).remote_context->0),
    {
        let url = match interrupt_url_for_request(vcp_url) {
            Some(u) => u,
            None => {
                return None;
            },
        };
        self.remote_context = Some(
            RemoteInterruptContext {
                interrupt_url: url,
                api_key: api_key.to_string(),
                request_id: message_id.to_string(),
            },
        );
        if self.cancelled {
            self.try_spawn_remote_interrupt()
        } else {
            None
        }
    }
}

/// Cancelling twice: the second call reports that the request was already cancelled, sends
/// nothing and changes nothing.
pub proof fn lemma_cancel_is_idempotent(
    c0: ActiveRequestControl,
    c1: ActiveRequestControl,
    c2: ActiveRequestControl,
    first1: bool,
    posted1: bool,
    first2: bool,
    posted2: bool,
)
    requires
        cancel_post(c0, c1, first1, posted1),
        cancel_post(c1, c2, first2, posted2),
    ensures
        !first2,
        !posted2,
        c2.cancelled && c2.remote_context == c1.remote_context,
        c2.remote_interrupt_sent == c1.remote_interrupt_sent,
{
}

/// One step of a control: a cancellation or the binding of its remote interrupt.
pub open spec fn control_step(old_c: ActiveRequestControl, new_c: ActiveRequestControl, posted: bool) -> bool {
    (exists|first: bool| cancel_post(old_c, new_c, first, posted)) || (exists|
        m: Seq<char>,
        u: Seq<char>,
        k: Seq<char>,
    | bind_post(old_c, new_c, m, u, k, posted))
}

/// The remote interrupt goes out at most once: once a step has sent it, no later step sends
/// it again.
pub proof fn lemma_interrupt_sent_at_most_once(
    c0: ActiveRequestControl,
    c1: ActiveRequestControl,
    c2: ActiveRequestControl,
    posted2: bool,
)
    requires
        control_step(c0, c1, true),
        control_step(c1, c2, posted2),
    ensures
        !posted2,
{
    assert(c1.remote_interrupt_sent);
}

/// Every step keeps a control well formed.
pub proof fn lemma_step_keeps_control_wf(c0: ActiveRequestControl, c1: ActiveRequestControl, posted: bool)
    requires
        control_wf(c0),
        control_step(c0, c1, posted),
    ensures
        control_wf(c1),
{
}

/// Cancelling a request whose interrupt is bound sends it; binding the interrupt of a
/// cancelled request sends it: in either order, it goes out.
pub proof fn lemma_cancel_then_bind_sends_interrupt(
    c0: ActiveRequestControl,
    c1: ActiveRequestControl,
    c2: ActiveRequestControl,
    first: bool,
    posted1: bool,
    m: Seq<char>,
    u: Seq<char>,
    k: Seq<char>,
    posted2: bool,
)
    requires
        !c0.remote_interrupt_sent,
        c0.remote_context is None,
        cancel_post(c0, c1, first, posted1),
        bind_post(c1, c2, m, u, k, posted2),
        url_parse_parts(u) is Some,
    ensures
        !posted1,
        posted2,
{
}

// ------------------------------------------------------------------ the registry

/// A registered request: its message id, the generation it was registered with and its
/// cancellation state.
pub struct RequestEntry {
    pub message_id: String,
    pub generation: u64,
    pub control: ActiveRequestControl,
}

/// The requests in flight, by message id. Registering an id again replaces the entry; each
/// registration gets a new generation, so that the guard of a replaced request cannot
/// remove its replacement.
pub struct ActiveRequests {
    pub entries: Vec<RequestEntry>,
    pub next_generation: u64,
}

/// The position of the entry with `id`, if any.
pub open spec fn index_of(entries: Seq<RequestEntry>, id: Seq<char>) -> Option<int> {
    if exists|i: int| 0 <= i < entries.len() && entries[i].message_id@ == id {
        Some(choose|i: int| 0 <= i < entries.len() && entries[i].message_id@ == id)
    } else {
        None
    }
}

impl ActiveRequests {
    /// Ids are unique and every generation handed out is below the next one.
    pub open spec fn wf(&self) -> bool {
        &&& forall|i: int, j: int|
            0 <= i < j < self.entries@.len() ==> self.entries@[i].message_id@
                != self.entries@[j].message_id@
        &&& forall|i: int|
            0 <= i < self.entries@.len() ==> (#[trigger] self.entries@[i]).generation
                < self.next_generation
    }

    /// The entry registered under `id`.
    pub open spec fn entry(&self, id: Seq<char>) -> Option<RequestEntry> {
        match index_of(self.entries@, id) {
            Some(i) => Some(self.entries@[i]),
            None => None,
        }
    }

    pub open spec fn generation_of(&self, id: Seq<char>) -> Option<u64> {
        match self.entry(id) {
            Some(e) => Some(e.generation),
            None => None,
        }
    }

    /// Registered ids other than `id` keep their entries.
    pub open spec fn others_unchanged(&self, other: &ActiveRequests, id: Seq<char>) -> bool {
        forall|x: Seq<char>| x != id ==> #[trigger] self.entry(x) == other.entry(x)
    }

    /// No request is registered.
    pub fn new() -> (r: ActiveRequests)
        ensures
            r.wf(),
            r.next_generation == 0,
            forall|x: Seq<char>| #[trigger] r.entry(x) is None,
    {
        ActiveRequests { entries: Vec::new(), next_generation: 0 }
    }

    fn find(&self, id: &str) -> (r: Option<usize>)
        requires
            self.wf(),
        ensures
            match r {
                Some(i) => i < self.entries@.len() && index_of(self.entries@, id@) == Some(
                    i as int,
                ),
                None => index_of(self.entries@, id@) is None,
            },
    {
        let mut i: usize = 0;
        while i < self.entries.len()
            invariant
                i <= self.entries.len(),
                self.wf(),
                forall|k: int| 0 <= k < i ==> self.entries@[k].message_id@ != id@,
            decreases self.entries.len() - i,
        {
            if str_eq(self.entries[i].message_id.as_str(), id) {
                proof {
                    let j = index_of(self.entries@, id@)->0;
                    assert(self.entries@[i as int].message_id@ == id@);
                    assert(j == i) by {
                        if j != i {
                            assert(self.entries@[j].message_id@ == id@);
                        }
                    }
                }
                return Some(i);
            }
            i = i + 1;
        }
        None
    }

    /// Whether there is room for another generation.
    pub fn can_register(&self) -> (r: bool)
        ensures
            r == (self.next_generation < u64::MAX),
    {
        self.next_generation < u64::MAX
    }

    /// Registers a fresh, uncancelled request under `id`, replacing any earlier one, and
    /// returns its generation.
    pub fn register(&mut self, id: &str) -> (g: u64)
        requires
            old(self).wf(),
            old(self).next_generation < u64::MAX,
        ensures
            final(self).wf(),
            g == old(self).next_generation,
            final(self).next_generation == g + 1,
            final(self).generation_of(id@) == Some(g),
            !final(self).entry(id@)->0.control.cancelled,
            !final(self).entry(id@)->0.control.remote_interrupt_sent,
            final(self).entry(id@)->0.control.remote_context is None,
            final(self).others_unchanged(&*old(self), id@),
    {
        let g = self.next_generation;
        let e = RequestEntry {
            message_id: id.to_string(),
            generation: g,
            control: ActiveRequestControl::new(),
        };
        let found = self.find(id);
        let ghost before = self.entries@;
        match found {
            Some(i) => {
                self.entries.set(i, e);
                proof {
                    assert forall|x: Seq<char>| x != id@ implies #[trigger] index_of(
                        self.entries@,
                        x,
                    ) == index_of(before, x) by {
                        if index_of(before, x) is Some {
                            let k = index_of(before, x)->0;
                            assert(k != i);
                            assert(self.entries@[k].message_id@ == x);
                            let k2 = index_of(self.entries@, x)->0;
                            assert(k2 == k) by {
                                if k2 != k {
                                    assert(self.entries@[k2] == before[k2]);
                                }
                            }
                        } else {
                            if index_of(self.entries@, x) is Some {
                                let k2 = index_of(self.entries@, x)->0;
                                assert(before[k2].message_id@ == x);
                            }
                        }
                    }
                    let k = index_of(self.entries@, id@);
                    assert(self.entries@[i as int].message_id@ == id@);
                    assert(k == Some(i as int)) by {
                        let k2 = k->0;
                        if k2 != i {
                            assert(before[k2].message_id@ == id@);
                        }
                    }
                }
            },
            None => {
                self.entries.push(e);
                proof {
                    let n = before.len() as int;
                    assert forall|x: Seq<char>| x != id@ implies #[trigger] index_of(
                        self.entries@,
                        x,
                    ) == index_of(before, x) by {
                        if index_of(before, x) is Some {
                            let k = index_of(before, x)->0;
                            assert(self.entries@[k] == before[k]);
                            let k2 = index_of(self.entries@, x)->0;
                            assert(k2 == k) by {
                                if k2 != k {
                                    if k2 < n {
                                        assert(self.entries@[k2] == before[k2]);
                                    }
                                }
                            }
                        } else {
                            if index_of(self.entries@, x) is Some {
                                let k2 = index_of(self.entries@, x)->0;
                                if k2 < n {
                                    assert(self.entries@[k2] == before[k2]);
                                }
                            }
                        }
                    }
                    assert(self.entries@[n].message_id@ == id@);
                    let k2 = index_of(self.entries@, id@)->0;
                    assert(k2 == n) by {
                        if k2 != n {
                            assert(self.entries@[k2] == before[k2]);
                        }
                    }
                }
            },
        }
        self.next_generation = g + 1;
        g
    }

    /// What the guard of a finished request does: it removes the entry under `id` only if
    /// that entry is still the one it registered (same generation).
    pub fn release(&mut self, id: &str, generation: u64)
        requires
            old(self).wf(),
        ensures
            final(self).wf(),
            final(self).next_generation == old(self).next_generation,
            old(self).generation_of(id@) == Some(generation) ==> final(self).entry(id@) is None,
            old(self).generation_of(id@) != Some(generation) ==> final(self).entry(id@) == old(
                self,
            ).entry(id@),
            final(self).others_unchanged(&*old(self), id@),
    {
        let found = self.find(id);
        match found {
            Some(i) => {
                if self.entries[i].generation == generation {
                    let ghost before = self.entries@;
                    self.entries.remove(i);
                    proof {
                        assert forall|x: Seq<char>| #[trigger] index_of(self.entries@, x) is Some
                            implies x != id@ by {
                            {
                                let k = index_of(self.entries@, x)->0;
                                if k < i {
                                    assert(self.entries@[k] == before[k]);
                                } else {
                                    assert(self.entries@[k] == before[k + 1]);
                                }
                            }
                        }
                        assert forall|x: Seq<char>| x != id@ implies #[trigger] self.entry(x)
                            == old(self).entry(x) by {
                            if index_of(before, x) is Some {
                                let k = index_of(before, x)->0;
                                assert(k != i);
                                let k2 = if k < i {
                                    k
                                } else {
                                    k - 1
                                };
                                assert(self.entries@[k2] == before[k]);
                                let k3 = index_of(self.entries@, x)->0;
                                assert(k3 == k2) by {
                                    if k3 != k2 {
                                        if k3 < i {
                                            assert(self.entries@[k3] == before[k3]);
                                        } else {
                                            assert(self.entries@[k3] == before[k3 + 1]);
                                        }
                                    }
                                }
                            } else {
                                if index_of(self.entries@, x) is Some {
                                    let k3 = index_of(self.entries@, x)->0;
                                    if k3 < i {
                                        assert(self.entries@[k3] == before[k3]);
                                    } else {
                                        assert(self.entries@[k3] == before[k3 + 1]);
                                    }
                                }
                            }
                        }
                        assert forall|a: int, b: int|
                            0 <= a < b < self.entries@.len() implies self.entries@[a].message_id@
                            != self.entries@[b].message_id@ by {
                            let a0 = if a < i {
                                a
                            } else {
                                a + 1
                            };
                            let b0 = if b < i {
                                b
                            } else {
                                b + 1
                            };
                            assert(self.entries@[a] == before[a0]);
                            assert(self.entries@[b] == before[b0]);
                        }
                        assert forall|a: int| 0 <= a < self.entries@.len() implies (
                        #[trigger] self.entries@[a]).generation < self.next_generation by {
                            let a0 = if a < i {
                                a
                            } else {
                                a + 1
                            };
                            assert(self.entries@[a] == before[a0]);
                        }
                    }
                }
            },
            None => {},
        }
    }
}

/// What `interruptRequest` answers.
pub struct InterruptReply {
    pub success: bool,
    /// `interrupted`, `already_cancelled` or `not_found`.
    pub status: String,
    pub message_id: String,
    /// The remote interrupt to send now, if any.
    pub post_interrupt: Option<RemoteInterruptContext>,
}

impl ActiveRequests {
    proof fn lemma_update_control(
        before: Seq<RequestEntry>,
        after: Seq<RequestEntry>,
        i: int,
        id: Seq<char>,
    )
        requires
            0 <= i < before.len(),
            before[i].message_id@ == id,
            after.len() == before.len(),
            after[i].message_id@ == id,
            forall|k: int| 0 <= k < before.len() && k != i ==> after[k] == before[k],
            forall|a: int, b: int|
                0 <= a < b < before.len() ==> before[a].message_id@ != before[b].message_id@,
        ensures
            forall|x: Seq<char>| #[trigger] index_of(after, x) == index_of(before, x),
            forall|a: int, b: int|
                0 <= a < b < after.len() ==> after[a].message_id@ != after[b].message_id@,
    {
        assert forall|x: Seq<char>| #[trigger] index_of(after, x) == index_of(before, x) by {
            if index_of(before, x) is Some {
                let k = index_of(before, x)->0;
                assert(after[k].message_id@ == x);
                let k2 = index_of(after, x)->0;
                assert(k2 == k) by {
                    if k2 != k {
                        if k2 != i {
                            assert(after[k2] == before[k2]);
                        }
                    }
                }
            } else {
                if index_of(after, x) is Some {
                    let k2 = index_of(after, x)->0;
                    if k2 != i {
                        assert(after[k2] == before[k2]);
                    }
                }
            }
        }
        assert forall|a: int, b: int|
            0 <= a < b < after.len() implies after[a].message_id@ != after[b].message_id@ by {
            if a != i {
                assert(after[a] == before[a]);
            }
            if b != i {
                assert(after[b] == before[b]);
            }
        }
    }

    /// Whether the request under `id` is registered and cancelled.
    pub fn is_cancelled(&self, id: &str) -> (r: bool)
        requires
            self.wf(),
        ensures
            r == (self.entry(id@) is Some && self.entry(id@)->0.control.cancelled),
    {
        match self.find(id) {
            Some(i) => self.entries[i].control.cancelled,
            None => false,
        }
    }

    /// Cancels the request under `id`; `None` when none is registered.
    pub fn cancel(&mut self, id: &str) -> (r: Option<CancelOutcome>)
        requires
            old(self).wf(),
        ensures
            final(self).wf(),
            final(self).next_generation == old(self).next_generation,
            final(self).others_unchanged(&*old(self), id@),
            old(self).entry(id@) is None ==> r is None && final(self).entry(id@) is None,
            old(self).entry(id@) is Some ==> {
                &&& r is Some
                &&& final(self).entry(id@) is Some
                &&& final(self).entry(id@)->0.generation == old(self).entry(id@)->0.generation
                &&& cancel_post(
                    old(self).entry(id@)->0.control,
                    final(self).entry(id@)->0.control,
                    r->0.first,
                    r->0.post_interrupt is Some,
                )
            },
    {
        match self.find(id) {
            Some(i) => {
                let ghost before = self.entries@;
                let mut e = self.entries.remove(i);
                let outcome = e.control.cancel();
                self.entries.insert(i, e);
                proof {
                    assert forall|k: int| 0 <= k < before.len() && k != i implies self.entries@[k]
                        == before[k] by {}
                    Self::lemma_update_control(before, self.entries@, i as int, id@);
                    assert forall|a: int| 0 <= a < self.entries@.len() implies (
                    #[trigger] self.entries@[a]).generation < self.next_generation by {
                        if a != i {
                            assert(self.entries@[a] == before[a]);
                        }
                    }
                }
                Some(outcome)
            },
            None => None,
        }
    }

    /// Binds the remote interrupt of the request under `id` (see
    /// `ActiveRequestControl::bind_remote_interrupt`); nothing happens when none is registered.
    pub fn bind_remote_interrupt(&mut self, id: &str, vcp_url: &str, api_key: &str) -> (r: Option<
        RemoteInterruptContext,
    >)
        requires
            old(self).wf(),
        ensures
            final(self).wf(),
            final(self).next_generation == old(self).next_generation,
            final(self).others_unchanged(&*old(self), id@),
            old(self).entry(id@) is None ==> r is None && final(self).entry(id@) is None,
            old(self).entry(id@) is Some ==> {
                &&& final(self).entry(id@) is Some
                &&& final(self).entry(id@)->0.generation == old(self).entry(id@)->0.generation
                &&& bind_post(
                    old(self).entry(id@)->0.control,
                    final(self).entry(id@)->0.control,
                    id@,
                    vcp_url@,
                    api_key@,
                    r is Some,
                )
            },
    {
        match self.find(id) {
            Some(i) => {
                let ghost before = self.entries@;
                let mut e = self.entries.remove(i);
                let posted = e.control.bind_remote_interrupt(id, vcp_url, api_key);
                self.entries.insert(i, e);
                proof {
                    assert forall|k: int| 0 <= k < before.len() && k != i implies self.entries@[k]
                        == before[k] by {}
                    Self::lemma_update_control(before, self.entries@, i as int, id@);
                    assert forall|a: int| 0 <= a < self.entries@.len() implies (
                    #[trigger] self.entries@[a]).generation < self.next_generation by {
                        if a != i {
                            assert(self.entries@[a] == before[a]);
                        }
                    }
                }
                posted
            },
            None => None,
        }
    }

    /// `interruptRequest`: cancels the request under `message_id` and says whether it was
    /// interrupted now, already cancelled, or not found.
    pub fn interrupt_request(&mut self, message_id: String) -> (r: InterruptReply)
        requires
            old(self).wf(),
        ensures
            final(self).wf(),
            final(self).others_unchanged(&*old(self), message_id@),
            r.message_id == message_id,
            r.success == old(self).entry(message_id@) is Some,
            r.status@ == (if old(self).entry(message_id@) is None {
                "not_found"@
            } else if !old(self).entry(message_id@)->0.control.cancelled {
                "interrupted"@
            } else {
                "already_cancelled"@
            }),
            old(self).entry(message_id@) is None ==> r.post_interrupt is None,
            old(self).entry(message_id@) is Some ==> final(self).entry(message_id@) is Some
                && cancel_post(
                old(self).entry(message_id@)->0.control,
                final(self).entry(message_id@)->0.control,
                !old(self).entry(message_id@)->0.control.cancelled,
                r.post_interrupt is Some,
            ),
    {
        match self.cancel(message_id.as_str()) {
            Some(outcome) => {
                let status = if outcome.first {
                    String::from_str("interrupted")
                } else {
                    String::from_str("already_cancelled")
                };
                InterruptReply {
                    success: true,
                    status,
                    message_id,
                    post_interrupt: outcome.post_interrupt,
                }
            },
            None => InterruptReply {
                success: false,
                status: String::from_str("not_found"),
                message_id,
                post_interrupt: None,
            },
        }
    }
}

/// What one attempt of a retried interrupt does next.
#[derive(PartialEq, Eq, Structural)]
pub enum RetryStep {
    /// The request is registered: cancel it and stop.
    Cancel,
    /// Not yet registered: wait this many milliseconds and look again.
    WaitMillis(u64),
    /// Not registered after the last attempt: give up.
    GiveUp,
}

/// Number of times a scheduled interrupt looks for its request.
pub const INTERRUPT_RETRY_ATTEMPTS: u32 = 20;

/// Pause between two looks, in milliseconds.
pub const INTERRUPT_RETRY_DELAY_MS: u64 = 250;

/// The step after attempt `attempt` (counted from 0) of a scheduled interrupt, given whether
/// the request was found.
pub fn interrupt_retry_step(attempt: u32, found: bool) -> (r: RetryStep)
    requires
        attempt < INTERRUPT_RETRY_ATTEMPTS,
    ensures
        found ==> r == RetryStep::Cancel,
        !found && attempt + 1 < INTERRUPT_RETRY_ATTEMPTS ==> r == RetryStep::WaitMillis(
            INTERRUPT_RETRY_DELAY_MS,
        ),
        !found && attempt + 1 == INTERRUPT_RETRY_ATTEMPTS ==> r == RetryStep::GiveUp,
{
    if found {
        RetryStep::Cancel
    } else if attempt + 1 < INTERRUPT_RETRY_ATTEMPTS {
        RetryStep::WaitMillis(INTERRUPT_RETRY_DELAY_MS)
    } else {
        RetryStep::GiveUp
    }
}

/// Group turns that were interrupted, by turn key.
pub struct CancelledGroupTurns {
    pub keys: Vec<String>,
}

/// What `interruptGroupTurn` answers.
pub struct GroupTurnReply {
    pub status: String,
    pub turn_id: String,
}

impl CancelledGroupTurns {
    pub open spec fn view_set(&self) -> Set<Seq<char>> {
        views(self.keys@).to_set()
    }

    pub fn new() -> (r: CancelledGroupTurns)
        ensures
            r.view_set() == Set::<Seq<char>>::empty(),
    {
        let r = CancelledGroupTurns { keys: Vec::new() };
        assert(r.view_set() =~= Set::<Seq<char>>::empty());
        r
    }

    /// Marks a group's relay turn as interrupted: keyed by the turn id, else the topic id.
    pub fn interrupt_group_turn(&mut self, topic_id: String, turn_id: Option<String>) -> (r:
        GroupTurnReply)
        ensures
            r.status@ == "cancelled"@,
            r.turn_id@ == (match turn_id {
                Some(t) => t@,
                None => topic_id@,
            }),
            final(self).view_set() == old(self).view_set().insert(r.turn_id@),
    {
        let key = match turn_id {
            Some(t) => t,
            None => topic_id,
        };
        if !contains_string(self.keys.as_slice(), key.as_str()) {
            let k = key.clone();
            let ghost before = self.keys@;
            proof {
                lemma_views_push(before, k);
                views(before).lemma_push_to_set_commute(key@);
            }
            self.keys.push(k);
            assert(self.view_set() =~= views(before).to_set().insert(key@));
        } else {
            assert(self.view_set() =~= self.view_set().insert(key@));
        }
        GroupTurnReply { status: String::from_str("cancelled"), turn_id: key }
    }

    /// Whether the turn with this key was interrupted.
    pub fn is_cancelled(&self, key: &str) -> (r: bool)
        ensures
            r == self.view_set().contains(key@),
    {
        contains_string(self.keys.as_slice(), key)
    }
}

/// A replaced request's guard cannot remove its replacement: after `id` is registered again,
/// releasing it with the earlier generation leaves the new entry in place.
pub proof fn lemma_stale_release_keeps_replacement(
    r1: ActiveRequests,
    r2: ActiveRequests,
    id: Seq<char>,
    g_old: u64,
    g_new: u64,
)
    requires
        r1.wf(),
        r1.generation_of(id) == Some(g_old),
        g_new == r1.next_generation,
        r2.generation_of(id) == Some(g_new),
    ensures
        r2.generation_of(id) != Some(g_old),
{
    let i = index_of(r1.entries@, id)->0;
    assert(r1.entries@[i].generation < r1.next_generation);
}

} // verus!
