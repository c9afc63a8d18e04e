//! From actions to datagrams: every client's messages are numbered and repeated.

use std::collections::HashMap;
use vstd::prelude::*;
use crate::bytes_util::copy_bytes;
use crate::handlers::util::Action;
use crate::kaillera::protocol::{UDPPacketGenerator, MAX_BODY};
#[allow(unused_imports)]
use crate::kaillera::protocol::{datagram, GeneratorModel};

verus! {

broadcast use vstd::std_specs::hash::group_hash_axioms;

/// A datagram for an address.
#[derive(Debug, Clone)]
pub struct Message {
    pub data: Vec<u8>,
    pub addr: u64,
}

/// A datagram for an address as a mathematical value.
#[verifier::ext_equal]
pub struct DatagramModel {
    pub data: Seq<u8>,
    pub addr: u64,
}

impl View for Message {
    type V = DatagramModel;

    open spec fn view(&self) -> DatagramModel {
        DatagramModel { data: self.data@, addr: self.addr }
    }
}

/// The views of a list of datagrams.
pub open spec fn datagrams_view(messages: Seq<Message>) -> Seq<DatagramModel> {
    messages.map_values(|m: Message| m@)
}

/// The numbering of every logged-in client.
#[derive(Debug)]
pub struct Outbox {
    generators: HashMap<u64, UDPPacketGenerator>,
}

/// The views of the generators of a map.
spec fn generators_view(generators: Map<u64, UDPPacketGenerator>) -> Map<u64, GeneratorModel> {
    generators.map_values(|g: UDPPacketGenerator| g@)
}

impl View for Outbox {
    type V = Map<u64, GeneratorModel>;

    closed spec fn view(&self) -> Map<u64, GeneratorModel> {
        generators_view(self.generators@)
    }
}

/// Every generator is well-formed.
pub open spec fn outbox_wf(outbox: Map<u64, GeneratorModel>) -> bool {
    forall|addr: u64| outbox.dom().contains(addr) ==> (#[trigger] outbox[addr]).wf()
}

/// A message to an address reaches it: the address has a numbering, and the
/// length of the body fits.
pub open spec fn reaches(outbox: Map<u64, GeneratorModel>, addr: u64, data: Seq<u8>) -> bool {
    outbox.dom().contains(addr) && data.len() <= MAX_BODY
}

/// The numberings after a message to these addresses, in order.
pub open spec fn after_sends(
    outbox: Map<u64, GeneratorModel>,
    to: Seq<u64>,
    message_type: u8,
    data: Seq<u8>,
) -> Map<u64, GeneratorModel>
    decreases to.len(),
{
    if to.len() == 0 {
        outbox
    } else {
        let before = after_sends(outbox, to.drop_last(), message_type, data);
        if reaches(before, to.last(), data) {
            before.insert(to.last(), before[to.last()].after(message_type, data))
        } else {
            before
        }
    }
}

/// The datagrams of a message to these addresses, in order.
pub open spec fn send_datagrams(
    outbox: Map<u64, GeneratorModel>,
    to: Seq<u64>,
    message_type: u8,
    data: Seq<u8>,
) -> Seq<DatagramModel>
    decreases to.len(),
{
    if to.len() == 0 {
        Seq::empty()
    } else {
        let before = after_sends(outbox, to.drop_last(), message_type, data);
        let earlier = send_datagrams(outbox, to.drop_last(), message_type, data);
        if reaches(before, to.last(), data) {
            earlier.push(
                DatagramModel {
                    data: datagram(before[to.last()].carried(message_type, data)),
                    addr: to.last(),
                },
            )
        } else {
            earlier
        }
    }
}

/// The numberings after an action.
pub open spec fn after_action(outbox: Map<u64, GeneratorModel>, action: Action) -> Map<
    u64,
    GeneratorModel,
> {
    match action {
        Action::Send { to, message_type, data } => after_sends(outbox, to@, message_type, data@),
        Action::SendAlone { .. } => outbox,
        Action::StartNumbering { addr } => outbox.insert(addr, GeneratorModel::initial()),
        Action::CloseSession { addr } => outbox.remove(addr),
    }
}

/// The datagrams of an action.
pub open spec fn action_datagrams(outbox: Map<u64, GeneratorModel>, action: Action) -> Seq<
    DatagramModel,
> {
    match action {
        Action::Send { to, message_type, data } => send_datagrams(
            outbox,
            to@,
            message_type,
            data@,
        ),
        Action::SendAlone { to, message_type, data } => if data@.len() <= MAX_BODY {
            seq![
                DatagramModel {
                    data: datagram(GeneratorModel::initial().carried(message_type, data@)),
                    addr: to,
                },
            ]
        } else {
            Seq::empty()
        },
        Action::StartNumbering { .. } => Seq::empty(),
        Action::CloseSession { .. } => Seq::empty(),
    }
}

impl Outbox {
    pub open spec fn wf(&self) -> bool {
        outbox_wf(self@)
    }

    /// An outbox that numbers nobody's messages.
    pub fn new() -> (outbox: Self)
        ensures
            outbox.wf(),
            outbox@ == Map::<u64, GeneratorModel>::empty(),
    {
        let outbox = Self { generators: HashMap::new() };
        assert(outbox@ =~= Map::<u64, GeneratorModel>::empty());
        outbox
    }

    /// The datagram of a message to an address, where it reaches it.
    fn send_one(&mut self, addr: u64, message_type: u8, data: &[u8]) -> (sent: Option<Message>)
        requires
            old(self).wf(),
        ensures
            final(self).wf(),
            match sent {
                Some(message) => {
                    &&& reaches(old(self)@, addr, data@)
                    &&& final(self)@ == old(self)@.insert(
                        addr,
                        old(self)@[addr].after(message_type, data@),
                    )
                    &&& message@ == (DatagramModel {
                        data: datagram(old(self)@[addr].carried(message_type, data@)),
                        addr,
                    })
                },
                None => !reaches(old(self)@, addr, data@) && final(self)@ == old(self)@,
            },
    {
        let ghost before = self@;
        if data.len() > MAX_BODY {
            return None;
        }
        match self.generators.remove(&addr) {
            Some(generator) => {
                let mut generator = generator;
                assert(before[addr] == generator@);
                let packet: Vec<u8> = generator.make_send_packet(message_type, copy_bytes(data));
                let ghost changed = generator@;
                self.generators.insert(addr, generator);
                assert(self@ =~= before.insert(addr, changed));
                Some(Message { data: packet, addr })
            },
            None => {
                assert(self@ =~= before);
                None
            },
        }
    }

    /// Carries out what an action says of messages: gives the datagrams to send.
    pub fn perform(&mut self, action: &Action) -> (messages: Vec<Message>)
        requires
            old(self).wf(),
        ensures
            final(self).wf(),
            final(self)@ == after_action(old(self)@, *action),
            datagrams_view(messages@) == action_datagrams(old(self)@, *action),
    {
        let ghost before = self@;
        let mut messages: Vec<Message> = Vec::new();
        assert(datagrams_view(messages@) =~= Seq::empty());
        match action {
            Action::Send { to, message_type, data } => {
                let mut i: usize = 0;
                assert(to@.take(0) =~= Seq::empty());
                while i < to.len()
                    invariant
                        i <= to@.len(),
                        self.wf(),
                        self@ == after_sends(before, to@.take(i as int), *message_type, data@),
                        datagrams_view(messages@) == send_datagrams(
                            before,
                            to@.take(i as int),
                            *message_type,
                            data@,
                        ),
                    decreases to.len() - i,
                {
                    assert(to@.take(i + 1).drop_last() =~= to@.take(i as int));
                    assert(to@.take(i + 1).last() == to@[i as int]);
                    if let Some(message) = self.send_one(to[i], *message_type, data.as_slice()) {
                        let ghost listed = messages@;
                        messages.push(message);
                        assert(datagrams_view(messages@) =~= datagrams_view(listed).push(
                            message@,
                        ));
                    }
                    i += 1;
                }
                assert(to@.take(i as int) =~= to@);
            },
            Action::SendAlone { to, message_type, data } => {
                if data.len() <= MAX_BODY {
                    let mut generator = UDPPacketGenerator::new();
                    let packet: Vec<u8> = generator.make_send_packet(
                        *message_type,
                        copy_bytes(data.as_slice()),
                    );
                    messages.push(Message { data: packet, addr: *to });
                    assert(datagrams_view(messages@) =~= action_datagrams(before, *action));
                }
            },
            Action::StartNumbering { addr } => {
                let generator = UDPPacketGenerator::new();
                self.generators.insert(*addr, generator);
                assert(self@ =~= before.insert(*addr, GeneratorModel::initial()));
            },
            Action::CloseSession { addr } => {
                let _ = self.generators.remove(addr);
                assert(self@ =~= before.remove(*addr));
            },
        }
        messages
    }

    /// Forgets the numbering of an address.
    pub fn forget(&mut self, addr: u64)
        requires
            old(self).wf(),
        ensures
            final(self).wf(),
            final(self)@ == old(self)@.remove(addr),
    {
        let ghost before = self@;
        let _ = self.generators.remove(&addr);
        assert(self@ =~= before.remove(addr));
    }

    /// The last datagram to an address, for a verbatim resend.
    pub fn last_sent(&self, addr: u64) -> (last: Option<Vec<u8>>)
        ensures
            match last {
                Some(data) => self@.dom().contains(addr) && self@[addr].last == Some(data@),
                None => !self@.dom().contains(addr) || self@[addr].last is None,
            },
    {
        match self.generators.get(&addr) {
            Some(generator) => generator.last_sent(),
            None => None,
        }
    }
}

} // verus!
