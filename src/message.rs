use vstd::prelude::*;

verus! {

/// A gossip message: an identifier chosen by its original sender, a hop
/// budget, and an opaque payload.
#[derive(Debug, Clone)]
pub struct GossipMessage {
    pub id: u32,
    pub ttl: u8,
    pub payload: Vec<u8>,
}

/// The mathematical value of a [`GossipMessage`].
pub ghost struct MessageView {
    pub id: u32,
    pub ttl: u8,
    pub payload: Seq<u8>,
}

impl View for GossipMessage {
    type V = MessageView;

    open spec fn view(&self) -> MessageView {
        MessageView { id: self.id, ttl: self.ttl, payload: self.payload@ }
    }
}

/// The value of an optional message.
pub open spec fn opt_view(r: Option<GossipMessage>) -> Option<MessageView> {
    match r {
        Some(m) => Some(m@),
        None => None,
    }
}

impl GossipMessage {
    pub fn new(id: u32, ttl: u8, payload: Vec<u8>) -> (r: GossipMessage)
        ensures
            r@ == (MessageView { id, ttl, payload: payload@ }),
    {
        GossipMessage { id, ttl, payload }
    }
}

} // verus!
