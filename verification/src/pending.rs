//! Requests that wait for the user's answer, and transfers that can be
//! cancelled.
//!
//! `P` is the means to answer a waiting request, `C` the means to cancel a
//! running transfer.

use crate::registry::Registry;
use vstd::prelude::*;

verus! {

/// What is taken out of `held` for `id`.
pub open spec fn taken_out<T>(held: Map<Seq<char>, T>, id: Seq<char>) -> Option<T> {
    if held.contains_key(id) {
        Some(held[id])
    } else {
        None
    }
}

/// Lets transfer `id` be cancelled through `token`.
pub fn register_cancel_token<C>(tokens: &mut Registry<C>, id: &String, token: C)
    ensures
        final(tokens)@ == old(tokens)@.insert(id@, token),
{
    let _ = tokens.insert(id.clone(), token);
}

/// Transfer `id` can no longer be cancelled.
pub fn remove_cancel_token<C>(tokens: &mut Registry<C>, id: &String)
    ensures
        final(tokens)@ == old(tokens)@.remove(id@),
{
    let _ = tokens.remove(id);
}

/// What is to be done to cancel a transfer.
pub struct Cancellation<P, C> {
    /// The request to answer with a no, if one waits.
    pub decline: Option<P>,
    /// The transfer to stop, if one runs.
    pub notify: Option<C>,
}

/// Cancels transfer `id`, whether it waits for its answer or runs.
pub fn cancel_transfer_by_id<P, C>(
    pending: &mut Registry<P>,
    tokens: &mut Registry<C>,
    id: &String,
) -> (cancellation: Cancellation<P, C>)
    ensures
        cancellation.decline == taken_out(old(pending)@, id@),
        cancellation.notify == taken_out(old(tokens)@, id@),
        final(pending)@ == old(pending)@.remove(id@),
        final(tokens)@ == old(tokens)@.remove(id@),
{
    let decline = pending.remove(id);
    let notify = tokens.remove(id);
    Cancellation { decline, notify }
}

/// The request that the user has answered, if it still waits.
pub fn respond_to_transfer<P>(pending: &mut Registry<P>, id: &String) -> (request: Option<P>)
    ensures
        request == taken_out(old(pending)@, id@),
        final(pending)@ == old(pending)@.remove(id@),
{
    pending.remove(id)
}

/// A transfer that has been registered is reached when it is cancelled, whatever
/// else is registered or removed meanwhile under other identifiers.
pub proof fn a_registered_transfer_is_reached<C>(
    tokens: Map<Seq<char>, C>,
    id: Seq<char>,
    token: C,
    other: Seq<char>,
    another: C,
)
    requires
        other != id,
    ensures
        taken_out(tokens.insert(id, token), id) == Some(token),
        taken_out(tokens.insert(id, token).insert(other, another), id) == Some(token),
        taken_out(tokens.insert(id, token).remove(other), id) == Some(token),
{
}

/// A transfer that has been cancelled or removed is not reached again, and a
/// request is answered once.
pub proof fn what_is_taken_out_is_gone<T>(held: Map<Seq<char>, T>, id: Seq<char>)
    ensures
        taken_out(held.remove(id), id) is None,
{
}

} // verus!
