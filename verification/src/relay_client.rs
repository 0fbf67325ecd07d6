//! A client of one relay: the requests waiting to be sent to it, and how it
//! answers what the relay sends.

use vstd::prelude::*;
use crate::messages::{ClientMessage, new_uuid_v4, is_random_uuid};
use crate::frame::{WsFrame, WsFrameView};

verus! {

pub struct RelayClient {
    pub uuid: u128,
    pub relay_addr: String,
    /// Messages waiting to be sent to the relay, oldest first.
    pub req_msg_queue: Vec<ClientMessage>,
}

impl RelayClient {
    /// The messages waiting to be sent, oldest first.
    pub open spec fn queue(&self) -> Seq<ClientMessage> {
        self.req_msg_queue@
    }

    /// A client of the relay at this address, with a fresh random id and nothing queued.
    pub fn new(relay_addr: String) -> (r: RelayClient)
        ensures
            r.relay_addr == relay_addr,
            is_random_uuid(r.uuid),
            r.queue() == Seq::<ClientMessage>::empty(),
    {
        RelayClient { uuid: new_uuid_v4(), relay_addr, req_msg_queue: Vec::new() }
    }

    /// Queues a message for the relay.
    pub fn schedule_request(&mut self, msg: ClientMessage)
        ensures
            final(self).queue() == old(self).queue().push(msg),
            final(self).uuid == old(self).uuid,
            final(self).relay_addr == old(self).relay_addr,
    {
        self.req_msg_queue.push(msg);
    }

    /// Takes the queued messages for sending: their texts, oldest first; the queue is left empty.
    pub fn process_msg_queue(&mut self) -> (r: Vec<String>)
        ensures
            r@ == old(self).queue().map_values(|m: ClientMessage| m.msg),
            final(self).queue() == Seq::<ClientMessage>::empty(),
            final(self).uuid == old(self).uuid,
            final(self).relay_addr == old(self).relay_addr,
    {
        let mut texts: Vec<String> = Vec::new();
        let mut i: usize = 0;
        while i < self.req_msg_queue.len()
            invariant
                i <= self.req_msg_queue@.len(),
                self.req_msg_queue@ == old(self).queue(),
                self.uuid == old(self).uuid,
                self.relay_addr == old(self).relay_addr,
                texts@ == self.req_msg_queue@.take(i as int).map_values(|m: ClientMessage| m.msg),
            decreases self.req_msg_queue@.len() - i,
        {
            texts.push(self.req_msg_queue[i].msg.clone());
            i = i + 1;
            proof {
                assert(texts@ =~= self.req_msg_queue@.take(i as int).map_values(
                    |m: ClientMessage| m.msg,
                ));
            }
        }
        proof {
            assert(self.req_msg_queue@.take(i as int) =~= self.req_msg_queue@);
        }
        self.req_msg_queue.clear();
        texts
    }

    /// The answer to a frame from the relay: a ping is answered with an empty
    /// pong; text and other frames are only logged.
    pub fn connection_next(frame: &WsFrame) -> (r: Option<WsFrame>)
        ensures
            frame is Ping ==> (r matches Some(f) && f@ == WsFrameView::Pong(Seq::empty())),
            !(frame is Ping) ==> r is None,
    {
        match frame {
            WsFrame::Ping(_) => Some(WsFrame::Pong(Vec::new())),
            _ => None,
        }
    }
}

} // verus!
