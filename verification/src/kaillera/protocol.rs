//! Datagrams: several numbered messages, the newest first.

use vstd::prelude::*;
use crate::bytes_util::{append_bytes, copy_bytes};
use crate::wire::{
    buffer_is_empty, buffer_len, buffer_of, put_u16_le, put_u8, take_bytes, take_u16_le, take_u8,
};
#[allow(unused_imports)]
use crate::wire::{law_le16_is_read_back, le16, read_le16, unread};

verus! {

/// Messages that one datagram repeats at most: the newest and those before it.
pub const REDUNDANCY: usize = 3;

/// Longest body whose length fits the length field.
pub const MAX_BODY: usize = 65534;

/// One message of a datagram.
#[derive(Debug, Clone, PartialEq)]
pub struct ParsedMessage {
    pub message_number: u16,
    pub message_type: u8,
    pub data: Vec<u8>,
}

/// One message as a mathematical value.
#[verifier::ext_equal]
pub struct MessageModel {
    pub message_number: u16,
    pub message_type: u8,
    pub data: Seq<u8>,
}

impl View for ParsedMessage {
    type V = MessageModel;

    open spec fn view(&self) -> MessageModel {
        MessageModel {
            message_number: self.message_number,
            message_type: self.message_type,
            data: self.data@,
        }
    }
}

/// The views of a list of messages.
pub open spec fn messages_view(messages: Seq<ParsedMessage>) -> Seq<MessageModel> {
    messages.map_values(|m: ParsedMessage| m@)
}

/// Why a datagram is refused.
#[derive(Debug, Clone, Copy, PartialEq, Eq)]
pub enum ParseError {
    /// There is no message count.
    Empty,
    /// The datagram ends inside a message.
    Truncated,
    /// A message is too short to have a type.
    NoType,
}

/// The messages at the front of a datagram body, in wire order.
pub open spec fn wire_messages(data: Seq<u8>, count: nat) -> Result<Seq<MessageModel>, ParseError>
    decreases count,
{
    if count == 0 {
        Ok(Seq::empty())
    } else if data.len() < 4 {
        Err(ParseError::Truncated)
    } else {
        let len = read_le16(data.skip(2));
        if len < 1 {
            Err(ParseError::NoType)
        } else if data.len() < 4 + len {
            Err(ParseError::Truncated)
        } else {
            match wire_messages(data.skip(4 + len), (count - 1) as nat) {
                Ok(rest) => Ok(
                    seq![
                        MessageModel {
                            message_number: read_le16(data) as u16,
                            message_type: data[4],
                            data: data.subrange(5, 4 + len),
                        },
                    ] + rest,
                ),
                Err(error) => Err(error),
            }
        }
    }
}

/// The messages of a datagram, oldest first.
pub open spec fn parsed(data: Seq<u8>) -> Result<Seq<MessageModel>, ParseError> {
    if data.len() == 0 {
        Err(ParseError::Empty)
    } else {
        match wire_messages(data.skip(1), data[0] as nat) {
            Ok(messages) => Ok(messages.reverse()),
            Err(error) => Err(error),
        }
    }
}

/// One message as it travels.
pub open spec fn message_bytes(message: MessageModel) -> Seq<u8> {
    le16(message.message_number) + le16((message.data.len() + 1) as u16)
        + seq![message.message_type] + message.data
}

/// Messages as they travel, in wire order.
pub open spec fn messages_bytes(messages: Seq<MessageModel>) -> Seq<u8>
    decreases messages.len(),
{
    if messages.len() == 0 {
        Seq::empty()
    } else {
        message_bytes(messages.first()) + messages_bytes(messages.drop_first())
    }
}

/// A datagram with these messages, given oldest first.
pub open spec fn datagram(messages: Seq<MessageModel>) -> Seq<u8> {
    seq![messages.len() as u8] + messages_bytes(messages.reverse())
}

/// Reads the messages of a datagram. The newest message comes first on the wire;
/// the list is oldest first.
pub fn parse_packet(data: &[u8]) -> (result: Result<Vec<ParsedMessage>, ParseError>)
    ensures
        match result {
            Ok(messages) => parsed(data@) == Ok::<Seq<MessageModel>, ParseError>(
                messages_view(messages@),
            ),
            Err(error) => parsed(data@) == Err::<Seq<MessageModel>, ParseError>(error),
        },
{
    let mut buf = buffer_of(data);
    if buffer_is_empty(&buf) {
        return Err(ParseError::Empty);
    }
    let count: u8 = take_u8(&mut buf);
    let ghost body = unread(buf);
    let mut newest_first: Vec<ParsedMessage> = Vec::new();
    let mut left: u8 = count;
    let ghost whole = wire_messages(body, count as nat);
    while left > 0
        invariant
            whole == match wire_messages(unread(buf), left as nat) {
                Ok(rest) => Ok::<Seq<MessageModel>, ParseError>(
                    messages_view(newest_first@) + rest,
                ),
                Err(error) => Err::<Seq<MessageModel>, ParseError>(error),
            },
            whole == wire_messages(body, count as nat),
            parsed(data@) == match whole {
                Ok(messages) => Ok::<Seq<MessageModel>, ParseError>(messages.reverse()),
                Err(error) => Err::<Seq<MessageModel>, ParseError>(error),
            },
        decreases left,
    {
        let ghost here = unread(buf);
        let ghost listed = messages_view(newest_first@);
        if buffer_len(&buf) < 4 {
            return Err(ParseError::Truncated);
        }
        let message_number: u16 = take_u16_le(&mut buf);
        let len: u16 = take_u16_le(&mut buf);
        assert(here.skip(2).skip(2) =~= here.skip(4));
        if len < 1 {
            return Err(ParseError::NoType);
        }
        if buffer_len(&buf) < len as usize {
            return Err(ParseError::Truncated);
        }
        let message_type: u8 = take_u8(&mut buf);
        let body: Vec<u8> = take_bytes(&mut buf, len as usize - 1);
        assert(here.skip(4).skip(1).skip(len - 1) =~= here.skip(4 + len));
        assert(body@ =~= here.subrange(5, 4 + len));
        let message = ParsedMessage { message_number, message_type, data: body };
        newest_first.push(message);
        assert(messages_view(newest_first@) =~= listed.push(message@));
        left -= 1;
        proof {
            if let Ok(rest) = wire_messages(unread(buf), left as nat) {
                assert(listed + (seq![message@] + rest) =~= listed.push(message@) + rest);
            }
        }
    }
    proof {
        assert(messages_view(newest_first@) + Seq::<MessageModel>::empty() =~= messages_view(
            newest_first@,
        ));
    }
    let mut messages: Vec<ParsedMessage> = Vec::new();
    let ghost all = messages_view(newest_first@);
    while newest_first.len() > 0
        invariant
            messages@.len() + newest_first@.len() == all.len(),
            messages_view(newest_first@) == all.take(newest_first@.len() as int),
            forall|i: int|
                0 <= i < messages@.len() ==> (#[trigger] messages@[i])@ == all[all.len() - 1 - i],
        decreases newest_first@.len(),
    {
        let ghost before = newest_first@;
        if let Some(message) = newest_first.pop() {
            assert(message@ == messages_view(before)[before.len() - 1]);
            messages.push(message);
            assert(messages_view(newest_first@) =~= all.take(newest_first@.len() as int));
        }
    }
    assert(messages_view(messages@) =~= all.reverse());
    Ok(messages)
}

/// Numbers the messages to one client and repeats recent ones, so that a lost
/// datagram loses no message.
#[derive(Debug, Clone)]
pub struct UDPPacketGenerator {
    next_number: u16,
    /// The messages that the last datagram carried, oldest first.
    recent: Vec<ParsedMessage>,
    last: Option<Vec<u8>>,
}

/// A generator as a mathematical value.
#[verifier::ext_equal]
pub struct GeneratorModel {
    pub next_number: u16,
    pub recent: Seq<MessageModel>,
    pub last: Option<Seq<u8>>,
}

impl GeneratorModel {
    /// A generator before its first message.
    pub open spec fn initial() -> GeneratorModel {
        GeneratorModel { next_number: 0, recent: Seq::empty(), last: None }
    }

    pub open spec fn wf(self) -> bool {
        &&& self.recent.len() <= REDUNDANCY
        &&& forall|i: int|
            0 <= i < self.recent.len() ==> (#[trigger] self.recent[i]).data.len() <= MAX_BODY
    }

    /// The messages that the next datagram carries, oldest first.
    pub open spec fn carried(self, message_type: u8, data: Seq<u8>) -> Seq<MessageModel> {
        let message = MessageModel { message_number: self.next_number, message_type, data };
        if self.recent.len() >= REDUNDANCY {
            self.recent.skip(1).push(message)
        } else {
            self.recent.push(message)
        }
    }

    /// The generator after a message.
    pub open spec fn after(self, message_type: u8, data: Seq<u8>) -> GeneratorModel {
        GeneratorModel {
            next_number: if self.next_number == u16::MAX {
                0
            } else {
                (self.next_number + 1) as u16
            },
            recent: self.carried(message_type, data),
            last: Some(datagram(self.carried(message_type, data))),
        }
    }
}

impl View for UDPPacketGenerator {
    type V = GeneratorModel;

    closed spec fn view(&self) -> GeneratorModel {
        GeneratorModel {
            next_number: self.next_number,
            recent: messages_view(self.recent@),
            last: match self.last {
                Some(data) => Some(data@),
                None => None,
            },
        }
    }
}

/// Appends one message.
fn put_message(data: &mut Vec<u8>, message: &ParsedMessage)
    requires
        message.data@.len() <= MAX_BODY,
    ensures
        final(data)@ == old(data)@ + message_bytes(message@),
{
    put_u16_le(data, message.message_number);
    put_u16_le(data, (message.data.len() + 1) as u16);
    put_u8(data, message.message_type);
    append_bytes(data, message.data.as_slice());
    assert(data@ =~= old(data)@ + message_bytes(message@));
}

/// The last message of a list is the first on the wire.
proof fn lemma_messages_bytes_reverse(messages: Seq<MessageModel>)
    requires
        messages.len() > 0,
    ensures
        messages_bytes(messages.reverse()) == message_bytes(messages.last()) + messages_bytes(
            messages.drop_last().reverse(),
        ),
{
    assert(messages.reverse().first() == messages.last());
    assert(messages.reverse().drop_first() =~= messages.drop_last().reverse());
}

impl UDPPacketGenerator {
    pub open spec fn wf(&self) -> bool {
        self@.wf()
    }

    /// A generator that starts at number 0.
    pub fn new() -> (generator: Self)
        ensures
            generator.wf(),
            generator@ == GeneratorModel::initial(),
    {
        let generator = Self { next_number: 0, recent: Vec::new(), last: None };
        assert(generator@ =~= GeneratorModel::initial());
        generator
    }

    /// The datagram with the recent messages.
    fn encode(&self) -> (data: Vec<u8>)
        requires
            self.wf(),
        ensures
            data@ == datagram(self@.recent),
    {
        let ghost all = self@.recent;
        let mut data: Vec<u8> = Vec::new();
        put_u8(&mut data, self.recent.len() as u8);
        let ghost head = data@;
        assert(head =~= seq![all.len() as u8]);
        let mut i: usize = self.recent.len();
        assert(all.take(i as int) =~= all);
        let ghost whole = messages_bytes(all.reverse());
        assert(head + whole =~= data@ + messages_bytes(all.take(i as int).reverse()));
        while i > 0
            invariant
                i <= self.recent@.len(),
                all == messages_view(self.recent@),
                self.wf(),
                self@.recent == all,
                head + whole == data@ + messages_bytes(all.take(i as int).reverse()),
            decreases i,
        {
            i -= 1;
            let ghost front = all.take(i + 1);
            proof {
                lemma_messages_bytes_reverse(front);
                assert(front.drop_last() =~= all.take(i as int));
                assert(front.last() == all[i as int]);
            }
            let ghost before = data@;
            assert(self@.recent[i as int].data.len() <= MAX_BODY);
            put_message(&mut data, &self.recent[i]);
            assert(before + (message_bytes(front.last()) + messages_bytes(
                all.take(i as int).reverse(),
            )) =~= data@ + messages_bytes(all.take(i as int).reverse()));
        }
        assert(all.take(0).reverse().len() == 0);
        assert(data@ =~= head + whole);
        data
    }

    /// The datagram for the next message. It repeats the messages before it.
    pub fn make_send_packet(&mut self, message_type: u8, data: Vec<u8>) -> (packet: Vec<u8>)
        requires
            old(self).wf(),
            data@.len() <= MAX_BODY,
        ensures
            final(self).wf(),
            final(self)@ == old(self)@.after(message_type, data@),
            packet@ == datagram(old(self)@.carried(message_type, data@)),
    {
        let ghost before = self@;
        let ghost body = data@;
        let message = ParsedMessage { message_number: self.next_number, message_type, data };
        if self.recent.len() >= REDUNDANCY {
            let ghost listed = self.recent@;
            self.recent.remove(0);
            assert(messages_view(self.recent@) =~= before.recent.skip(1));
        }
        let ghost kept = self.recent@;
        self.recent.push(message);
        assert(messages_view(self.recent@) =~= messages_view(kept).push(message@));
        assert(self@.recent == before.carried(message_type, body));
        assert(self.wf()) by {
            assert forall|i: int| 0 <= i < self@.recent.len() implies (
            #[trigger] self@.recent[i]).data.len() <= MAX_BODY by {
                if i < messages_view(kept).len() {
                    assert(self@.recent[i] == messages_view(kept)[i]);
                    let j = if before.recent.len() >= REDUNDANCY { i + 1 } else { i };
                    assert(before.recent[j].data.len() <= MAX_BODY);
                }
            }
        }
        self.next_number = if self.next_number == u16::MAX {
            0
        } else {
            self.next_number + 1
        };
        let packet: Vec<u8> = self.encode();
        self.last = Some(copy_bytes(packet.as_slice()));
        assert(self@ =~= before.after(message_type, body));
        packet
    }

    /// The last datagram, for a verbatim resend.
    pub fn last_sent(&self) -> (last: Option<Vec<u8>>)
        ensures
            match last {
                Some(data) => self@.last == Some(data@),
                None => self@.last is None,
            },
    {
        match &self.last {
            Some(data) => Some(copy_bytes(data.as_slice())),
            None => None,
        }
    }
}

/// The fields of a message stand where they are read.
proof fn lemma_message_fields(message: MessageModel, tail: Seq<u8>)
    requires
        message.data.len() <= MAX_BODY,
    ensures
        ({
            let data = message_bytes(message) + tail;
            let len = message.data.len() as int + 1;
            &&& data.len() == 4 + len + tail.len()
            &&& read_le16(data) == message.message_number
            &&& read_le16(data.skip(2)) == len
            &&& data[4] == message.message_type
            &&& data.subrange(5, 4 + len) == message.data
            &&& data.skip(4 + len) == tail
        }),
{
    let data = message_bytes(message) + tail;
    let len = (message.data.len() + 1) as u16;
    let body = seq![message.message_type] + message.data + tail;
    assert(data =~= le16(message.message_number) + (le16(len) + body));
    law_le16_is_read_back(message.message_number, le16(len) + body);
    law_le16_is_read_back(len, body);
    assert(data.subrange(5, 4 + len) =~= message.data);
    assert(data.skip(4 + len) =~= tail);
}

/// What is read back of messages in wire order.
#[verifier::spinoff_prover]
proof fn lemma_messages_read_back(messages: Seq<MessageModel>)
    requires
        forall|i: int|
            0 <= i < messages.len() ==> (#[trigger] messages[i]).data.len() <= MAX_BODY,
    ensures
        wire_messages(messages_bytes(messages), messages.len()) == Ok::<
            Seq<MessageModel>,
            ParseError,
        >(messages),
    decreases messages.len(),
{
    if messages.len() > 0 {
        let first = messages[0];
        let rest = messages.drop_first();
        assert(first.data.len() <= MAX_BODY);
        assert forall|i: int| 0 <= i < rest.len() implies (#[trigger] rest[i]).data.len()
            <= MAX_BODY by {
            assert(rest[i] == messages[i + 1]);
        }
        lemma_messages_read_back(rest);
        lemma_message_fields(first, messages_bytes(rest));
        assert(messages_bytes(messages) == message_bytes(first) + messages_bytes(rest));
        assert(seq![first] + rest =~= messages);
    } else {
        assert(messages =~= Seq::empty());
    }
}

/// A datagram is read back as the messages it was made of.
pub proof fn law_datagram_is_read_back(messages: Seq<MessageModel>)
    requires
        messages.len() <= 255,
        forall|i: int|
            0 <= i < messages.len() ==> (#[trigger] messages[i]).data.len() <= MAX_BODY,
    ensures
        parsed(datagram(messages)) == Ok::<Seq<MessageModel>, ParseError>(messages),
{
    let wire = messages.reverse();
    assert forall|i: int| 0 <= i < wire.len() implies (#[trigger] wire[i]).data.len()
        <= MAX_BODY by {
        assert(wire[i] == messages[messages.len() - 1 - i]);
    }
    lemma_messages_read_back(wire);
    let data = datagram(messages);
    assert(data.skip(1) =~= messages_bytes(wire));
    assert(wire.reverse() =~= messages);
}

/// Whatever a client missed, the next datagram ends with the newest message,
/// numbered in sequence, and repeats the ones the last datagram carried, but for
/// the oldest when the datagram is full.
pub proof fn law_sent_message_is_read_back(m: GeneratorModel, message_type: u8, data: Seq<u8>)
    requires
        m.wf(),
        data.len() <= MAX_BODY,
    ensures
        parsed(datagram(m.carried(message_type, data))) == Ok::<Seq<MessageModel>, ParseError>(
            m.carried(message_type, data),
        ),
        m.carried(message_type, data).last() == (MessageModel {
            message_number: m.next_number,
            message_type,
            data,
        }),
{
    let carried = m.carried(message_type, data);
    assert forall|i: int| 0 <= i < carried.len() implies (#[trigger] carried[i]).data.len()
        <= MAX_BODY by {
        if i < carried.len() - 1 {
            let j = if m.recent.len() >= REDUNDANCY { i + 1 } else { i };
            assert(carried[i] == m.recent[j]);
        }
    }
    law_datagram_is_read_back(carried);
}

} // verus!
