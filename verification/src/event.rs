//! Domain events produced by the resolution pass, and the external event
//! channel they are published to.
//!
//! The core is a producer only: one frame's events are accumulated in a
//! vector and appended to a `shrev` event channel in a single batched call.
//! Consumption and lifecycle of the events belong to the channel's readers.
//! The channel delivers an event only to readers registered before it was
//! written, and its ring buffer grows to fit an oversized batch only when an
//! active reader forces it to be kept; the publish wrapper therefore
//! requires an active reader, which [`has_active_reader`] tests.

use vstd::prelude::*;

verus! {

/// A game-state event derived from one collision effect.
#[derive(Clone, Copy, Debug, PartialEq, Eq, Structural)]
pub enum GameEvent {
    /// The entity with this handle should be deleted.
    Delete(u64),
    /// The entity with this handle was hit.
    Hit(u64),
}

/// Declares shrev::EventChannel, the external ring-buffer event bus the
/// resolution pass publishes to. The channel is opaque here; its contents
/// are spoken of through [`channel_contents`], its subscription state
/// through [`channel_has_reader`].
#[verifier::external_type_specification]
#[verifier::external_body]
#[verifier::reject_recursive_types(E)]
pub struct ExEventChannel<E>(shrev::EventChannel<E>);

/// The events written to the channel so far, in writing order. Named, not
/// defined: what a channel holds is established only by the contracts of
/// the operations that write to it.
pub uninterp spec fn channel_contents(c: shrev::EventChannel<GameEvent>) -> Seq<GameEvent>;

/// Whether the channel has an active reader: a subscription that was
/// registered and not yet cancelled (cancelling one counts as changing the
/// channel). Named, not defined: established at runtime by
/// [`has_active_reader`].
pub uninterp spec fn channel_has_reader(c: shrev::EventChannel<GameEvent>) -> bool;

/// Relies on shrev::EventChannel::would_write: it reports whether any
/// active reader would observe a write. It prunes cancelled subscriptions
/// from the channel's bookkeeping but removes no active reader and no
/// written event.
#[verifier::external_body]
pub(crate) fn has_active_reader(channel: &mut shrev::EventChannel<GameEvent>) -> (r: bool)
    ensures
        r == channel_has_reader(*old(channel)),
        channel_has_reader(*final(channel)) == channel_has_reader(*old(channel)),
        channel_contents(*final(channel)) == channel_contents(*old(channel)),
{
    channel.would_write()
}

/// Relies on shrev::EventChannel::drain_vec_write: it removes every event
/// from the vector and appends them to the channel, in order, as one batch.
/// An active reader is required: it makes the ring buffer keep (and grow
/// for) every unread event, whatever the batch's length; without one an
/// over-capacity batch is not accepted by the buffer. Writing drops no
/// reader.
#[verifier::external_body]
pub(crate) fn publish_batch(channel: &mut shrev::EventChannel<GameEvent>, events: &mut Vec<GameEvent>)
    requires
        channel_has_reader(*old(channel)),
    ensures
        channel_contents(*final(channel)) == channel_contents(*old(channel)) + old(events)@,
        channel_has_reader(*final(channel)) == channel_has_reader(*old(channel)),
        final(events)@.len() == 0,
{
    channel.drain_vec_write(events);
}

} // verus!
