//! A wrapper that ties an owned resource (the filesystem watch handle) to the
//! lifetime of a lazy stream: the resource is torn down when the stream ends
//! on its own, or when the wrapper is abandoned before that — and in every
//! history exactly once, never twice.

use vstd::prelude::*;

verus! {

/// What one poll of the wrapped stream produced.
pub enum StreamStep<I> {
    /// No item was ready yet.
    Pending,
    /// The stream produced an item.
    Item(I),
    /// The stream reached its end.
    End,
}

/// A stream paired with an owned resource, released when the stream ends or
/// the wrapper is abandoned.
pub struct StreamOwns<S, T> {
    /// The wrapped stream; polled by the caller, reported via `poll_step`.
    pub stream: S,
    /// The resource, present until it is torn down.
    pub owned: Option<T>,
}

impl<S, T> StreamOwns<S, T> {
    /// The resource still held, if it has not been torn down yet.
    pub open spec fn spec_owned(self) -> Option<T> {
        self.owned
    }

    /// Whether the resource has been torn down.
    pub open spec fn released(self) -> bool {
        self.spec_owned() is None
    }

    /// Record the outcome of polling the wrapped stream. The step is handed
    /// back unchanged; on the stream's terminal signal the owned resource is
    /// dropped, and a step after that cannot bring it back.
    pub fn poll_step<I>(&mut self, step: StreamStep<I>) -> (r: StreamStep<I>)
        ensures
            r == step,
            final(self).stream == old(self).stream,
            final(self).spec_owned() == spec_owned_after(old(self).spec_owned(), step is End),
    {
        if matches!(step, StreamStep::End) {
            self.owned = None;
        }
        step
    }

    /// Abandon the wrapper: tear the resource down now if it is still held,
    /// and hand it out so the caller can drop it. A second call returns
    /// nothing — the resource leaves at most once.
    pub fn release(&mut self) -> (r: Option<T>)
        ensures
            r == old(self).spec_owned(),
            final(self).released(),
            final(self).stream == old(self).stream,
    {
        self.owned.take()
    }
}

/// Pair a stream with a resource it is to own.
pub fn own<S, T>(stream: S, owned: T) -> (r: StreamOwns<S, T>)
    ensures
        r.stream == stream,
        r.spec_owned() == Some(owned),
        !r.released(),
{
    StreamOwns { stream, owned: Some(owned) }
}

/// The resource after one poll outcome: gone if the stream ended.
pub open spec fn spec_owned_after<T>(owned: Option<T>, is_end: bool) -> Option<T> {
    if is_end {
        None
    } else {
        owned
    }
}

/// The resource after a whole history of poll outcomes, each recorded as
/// whether it was the stream's end.
pub open spec fn spec_owned_after_steps<T>(owned: Option<T>, ends: Seq<bool>) -> Option<T>
    decreases ends.len(),
{
    if ends.len() == 0 {
        owned
    } else {
        spec_owned_after_steps(spec_owned_after(owned, ends[0]), ends.drop_first())
    }
}

/// How many times the resource is torn down over a history of poll outcomes.
pub open spec fn spec_release_count<T>(owned: Option<T>, ends: Seq<bool>) -> nat
    decreases ends.len(),
{
    if ends.len() == 0 {
        0
    } else {
        (if owned is Some && spec_owned_after(owned, ends[0]) is None {
            1nat
        } else {
            0nat
        }) + spec_release_count(spec_owned_after(owned, ends[0]), ends.drop_first())
    }
}

/// One if the resource is still held, zero once it is gone.
pub open spec fn spec_held<T>(owned: Option<T>) -> nat {
    if owned is Some {
        1nat
    } else {
        0nat
    }
}

/// Over any history, teardowns during polling plus a final teardown of
/// whatever is still held account exactly for what was held at the start.
proof fn lemma_release_count_balance<T>(owned: Option<T>, ends: Seq<bool>)
    ensures
        spec_release_count(owned, ends) + spec_held(spec_owned_after_steps(owned, ends))
            == spec_held(owned),
    decreases ends.len(),
{
    if ends.len() > 0 {
        lemma_release_count_balance(spec_owned_after(owned, ends[0]), ends.drop_first());
    }
}

/// Teardown happens exactly once. Starting from a freshly owned resource,
/// however the stream's poll outcomes run: if some poll reports the end, the
/// resource is torn down there and abandonment finds nothing; if none does,
/// abandonment tears it down itself. Either way the teardowns during polling
/// plus the one at abandonment total exactly one — never zero, never two.
pub proof fn lemma_teardown_exactly_once<T>(resource: T, ends: Seq<bool>)
    ensures
        spec_release_count(Some(resource), ends) + spec_held(
            spec_owned_after_steps(Some(resource), ends),
        ) == 1,
        spec_release_count(Some(resource), ends) <= 1,
{
    lemma_release_count_balance(Some(resource), ends);
}

} // verus!
