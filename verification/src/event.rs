use vstd::prelude::*;

verus! {

/// Minimal event bus: enqueue during a frame, drain once per frame.
pub struct EventBus<E> {
    queue: Vec<E>,
}

impl<E> View for EventBus<E> {
    type V = Seq<E>;

    /// The queued events, oldest first.
    closed spec fn view(&self) -> Seq<E> {
        self.queue@
    }
}

impl<E> Default for EventBus<E> {
    fn default() -> (b: Self)
        ensures
            b@ == Seq::<E>::empty(),
    {
        EventBus { queue: Vec::new() }
    }
}

impl<E> EventBus<E> {
    /// Appends an event behind those already queued.
    pub fn push(&mut self, e: E)
        ensures
            final(self)@ == old(self)@.push(e),
    {
        self.queue.push(e);
    }

    /// Hands out every queued event in the order pushed and leaves the queue empty.
    pub fn drain(&mut self) -> (events: Vec<E>)
        ensures
            events@ == old(self)@,
            final(self)@ == Seq::<E>::empty(),
    {
        let mut out: Vec<E> = Vec::new();
        std::mem::swap(&mut out, &mut self.queue);
        out
    }
}

/// The queue after pushing each of `es` in turn onto `q`.
pub open spec fn after_pushes<E>(q: Seq<E>, es: Seq<E>) -> Seq<E>
    decreases es.len(),
{
    if es.len() == 0 {
        q
    } else {
        after_pushes(q, es.drop_last()).push(es.last())
    }
}

/// Pushing events one by one and then draining hands them out in push order,
/// behind whatever was queued before.
pub proof fn law_drain_returns_pushed<E>(q: Seq<E>, es: Seq<E>)
    ensures
        after_pushes(q, es) == q + es,
    decreases es.len(),
{
    if es.len() > 0 {
        law_drain_returns_pushed(q, es.drop_last());
        assert(q + es == (q + es.drop_last()).push(es.last()));
    } else {
        assert(q + es == q);
    }
}

} // verus!
