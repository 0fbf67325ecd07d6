//! The proxy: one relay client per configured relay, to which every client
//! message is handed.

use vstd::prelude::*;
use crate::config::Settings;
use crate::messages::{ClientMessage, Connect, Disconnect, is_random_uuid};
use crate::relay_client::RelayClient;

verus! {

pub struct Proxy {
    pub relays: Vec<RelayClient>,
}

impl Proxy {
    /// A relay client for each relay of the configuration, in order, each with a
    /// fresh random id.
    pub fn new(settings: &Settings) -> (r: Proxy)
        ensures
            r.relays@.len() == settings.sources.relays@.len(),
            forall|i: int| 0 <= i < r.relays@.len() ==> (#[trigger] r.relays@[i]).relay_addr
                == settings.sources.relays@[i] && r.relays@[i].queue().len() == 0
                && is_random_uuid(r.relays@[i].uuid),
    {
        let mut relays: Vec<RelayClient> = Vec::new();
        let mut i: usize = 0;
        while i < settings.sources.relays.len()
            invariant
                i <= settings.sources.relays@.len(),
                relays@.len() == i,
                forall|k: int| 0 <= k < i ==> (#[trigger] relays@[k]).relay_addr
                    == settings.sources.relays@[k] && relays@[k].queue().len() == 0
                    && is_random_uuid(relays@[k].uuid),
            decreases settings.sources.relays@.len() - i,
        {
            relays.push(RelayClient::new(settings.sources.relays[i].clone()));
            i = i + 1;
        }
        Proxy { relays }
    }

    /// Queues the message for every relay.
    pub fn send_to_relays(&mut self, msg: &ClientMessage)
        ensures
            final(self).relays@.len() == old(self).relays@.len(),
            forall|i: int| 0 <= i < final(self).relays@.len() ==> {
                &&& (#[trigger] final(self).relays@[i]).queue() == old(self).relays@[i].queue().push(*msg)
                &&& final(self).relays@[i].relay_addr == old(self).relays@[i].relay_addr
                &&& final(self).relays@[i].uuid == old(self).relays@[i].uuid
            },
    {
        let mut i: usize = 0;
        while i < self.relays.len()
            invariant
                i <= self.relays@.len(),
                self.relays@.len() == old(self).relays@.len(),
                forall|k: int| 0 <= k < self.relays@.len() ==> {
                    &&& (#[trigger] self.relays@[k]).queue() == if k < i {
                        old(self).relays@[k].queue().push(*msg)
                    } else {
                        old(self).relays@[k].queue()
                    }
                    &&& self.relays@[k].relay_addr == old(self).relays@[k].relay_addr
                    &&& self.relays@[k].uuid == old(self).relays@[k].uuid
                },
            decreases self.relays@.len() - i,
        {
            let mut relay = self.relays.remove(i);
            relay.schedule_request(msg.duplicate());
            self.relays.insert(i, relay);
            i = i + 1;
        }
    }

    /// A client connection started: accepted.
    pub fn handle_connect(&mut self, msg: Connect) -> (r: bool)
        ensures
            r,
            *final(self) == *old(self),
    {
        true
    }

    /// A client connection ended: acknowledged.
    pub fn handle_disconnect(&mut self, msg: Disconnect) -> (r: bool)
        ensures
            r,
            *final(self) == *old(self),
    {
        true
    }

    /// A client message: queued for every relay.
    pub fn handle_client_message(&mut self, msg: ClientMessage) -> (r: bool)
        ensures
            r,
            final(self).relays@.len() == old(self).relays@.len(),
            forall|i: int| 0 <= i < final(self).relays@.len() ==> {
                &&& (#[trigger] final(self).relays@[i]).queue() == old(self).relays@[i].queue().push(msg)
                &&& final(self).relays@[i].relay_addr == old(self).relays@[i].relay_addr
                &&& final(self).relays@[i].uuid == old(self).relays@[i].uuid
            },
    {
        self.send_to_relays(&msg);
        true
    }
}

} // verus!
