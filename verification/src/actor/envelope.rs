//! Messages on their way to an actor.

use crate::actor::metadata::{Metadata, MetadataView};
use crate::actor::reference::UntypedActorRef;
use vstd::prelude::*;

verus! {

/// Who sent a message.
#[derive(Debug, PartialEq, Eq)]
pub enum Sender {
    /// No one who could be answered.
    Nobody,
    /// An actor.
    Actor(UntypedActorRef),
}

/// A message, with its sender and its metadata.
pub struct MessageEnvelope<M> {
    pub message: M,
    pub sender: Sender,
    pub metadata: Metadata,
}

impl<M> MessageEnvelope<M> {
    /// A message without sender and metadata.
    pub fn new(message: M) -> (r: MessageEnvelope<M>)
        ensures
            r.message == message,
            r.sender == Sender::Nobody,
            r.metadata.wf(),
            r.metadata@ == MetadataView::blank(),
    {
        MessageEnvelope { message, sender: Sender::Nobody, metadata: Metadata::new() }
    }

    /// A message from `sender`, without metadata.
    pub fn with_typed_sender(message: M, sender: Sender) -> (r: MessageEnvelope<M>)
        ensures
            r.message == message,
            r.sender == sender,
            r.metadata.wf(),
            r.metadata@ == MetadataView::blank(),
    {
        MessageEnvelope { message, sender, metadata: Metadata::new() }
    }

    /// A message from `sender` with `metadata`.
    pub fn with_meta(message: M, sender: Sender, metadata: Metadata) -> (r: MessageEnvelope<M>)
        ensures
            r.message == message,
            r.sender == sender,
            r.metadata == metadata,
    {
        MessageEnvelope { message, sender, metadata }
    }
}

} // verus!
