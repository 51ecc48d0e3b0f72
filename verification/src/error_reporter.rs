//! Error messages for the user. Errors raised in the foreground are shown at once;
//! background work queues them, and the main loop takes them from the queue and shows them
//! in the corner of the screen. The queue keeps the most recent twenty.

use crate::text::{append_str, chars_of, string_from_chars};
use vstd::prelude::*;

verus! {

/// How many messages wait at most; older ones give way.
pub const MAX_PENDING_ERRORS: usize = 20;

/// The text of a reported error: the context, a full-width colon, and the error.
pub open spec fn message_text(context: Seq<char>, error: Seq<char>) -> Seq<char> {
    context + "："@ + error
}

/// The message for an error in a context (`{context}：{error}`).
pub fn record(context: &str, error: &str) -> (r: String)
    ensures
        r@ == message_text(context@, error@),
{
    let mut v = chars_of(context);
    append_str(&mut v, "：");
    append_str(&mut v, error);
    string_from_chars(&v)
}

/// Messages waiting for the main loop, oldest first.
pub struct PendingErrors {
    queue: Vec<String>,
}

impl View for PendingErrors {
    type V = Seq<Seq<char>>;

    closed spec fn view(&self) -> Seq<Seq<char>> {
        Seq::new(self.queue@.len(), |i: int| self.queue@[i]@)
    }
}

impl PendingErrors {
    /// At most twenty messages wait.
    pub open spec fn wf(&self) -> bool {
        self@.len() <= MAX_PENDING_ERRORS
    }

    pub fn new() -> (q: PendingErrors)
        ensures
            q@ == Seq::<Seq<char>>::empty(),
            q.wf(),
    {
        let q = PendingErrors { queue: Vec::new() };
        assert(q@ =~= Seq::<Seq<char>>::empty());
        q
    }

    pub fn len(&self) -> (n: usize)
        ensures
            n == self@.len(),
    {
        self.queue.len()
    }
}

/// The queue after a message arrives: the oldest messages leave until there is room, then
/// the message joins at the end.
pub open spec fn queue_after_report(q: Seq<Seq<char>>, m: Seq<char>) -> Seq<Seq<char>> {
    if q.len() >= MAX_PENDING_ERRORS {
        q.subrange(q.len() - (MAX_PENDING_ERRORS - 1), q.len() as int).push(m)
    } else {
        q.push(m)
    }
}

/// Queues an error from background work for the main loop, and returns its message.
pub fn report(pending: &mut PendingErrors, context: &str, error: &str) -> (r: String)
    requires
        old(pending).wf(),
    ensures
        r@ == message_text(context@, error@),
        final(pending).wf(),
        final(pending)@ == queue_after_report(old(pending)@, r@),
{
    let message = record(context, error);
    let ghost q0 = pending@;
    if pending.queue.len() >= MAX_PENDING_ERRORS {
        pending.queue.remove(0);
        assert(pending@ =~= q0.subrange(q0.len() - (MAX_PENDING_ERRORS - 1), q0.len() as int));
    }
    let ghost before = pending@;
    pending.queue.push(message.clone());
    assert(pending@ =~= before.push(message@));
    message
}

/// Takes the oldest waiting message, if any.
pub fn take_pending(pending: &mut PendingErrors) -> (r: Option<String>)
    requires
        old(pending).wf(),
    ensures
        final(pending).wf(),
        old(pending)@.len() == 0 ==> r is None && final(pending)@ == old(pending)@,
        old(pending)@.len() > 0 ==> (r matches Some(m) && m@ == old(pending)@[0]),
        old(pending)@.len() > 0 ==> final(pending)@ == old(pending)@.drop_first(),
{
    if pending.queue.len() == 0 {
        None
    } else {
        let ghost q0 = pending@;
        let m = pending.queue.remove(0);
        assert(pending@ =~= q0.drop_first());
        Some(m)
    }
}

/// A message reported to an empty queue is the next one taken, unchanged; reporting never
/// lets more than twenty messages wait.
pub proof fn lemma_report_then_take(q: Seq<Seq<char>>, m: Seq<char>)
    requires
        q.len() <= MAX_PENDING_ERRORS,
    ensures
        queue_after_report(q, m).len() <= MAX_PENDING_ERRORS,
        queue_after_report(q, m).last() == m,
        q.len() == 0 ==> queue_after_report(q, m)[0] == m,
        q.len() < MAX_PENDING_ERRORS ==> queue_after_report(q, m).drop_last() == q,
{
    if q.len() < MAX_PENDING_ERRORS {
        assert(q.push(m).drop_last() =~= q);
    }
}

} // verus!
