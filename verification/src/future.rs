use vstd::prelude::*;
use crate::context::{Context, ContextView};
use crate::poll::Poll;

verus! {

/// A future that is driven by polls: each poll looks at the context, may print,
/// register a wake time or spawn jobs, and either finishes or asks to be polled
/// again. A poll that is pending always leaves a wake time registered, so the
/// runtime knows when to poll again.
pub trait Future: Sized {
    type Output;

    /// The future may be polled again. A future that returned `Ready` need not
    /// be pollable any more.
    spec fn pollable(&self) -> bool;

    /// What one poll does: from `self` in context `cx` to `post` in `cx_post`,
    /// with result `result`.
    spec fn poll_step(
        &self,
        cx: ContextView,
        post: Self,
        cx_post: ContextView,
        result: Poll<Self::Output>,
    ) -> bool;

    fn poll(&mut self, cx: &mut Context) -> (result: Poll<Self::Output>)
        requires
            old(self).pollable(),
        ensures
            old(self).poll_step(old(cx)@, *final(self), final(cx)@, result),
            result is Pending ==> final(self).pollable(),
            result is Pending ==> final(cx)@.next_wake is Some,
            old(cx)@.leads_to(final(cx)@),
    ;
}

} // verus!
