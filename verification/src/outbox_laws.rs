//! What goes out on the wire: one datagram to everybody a message is for, numbered for
//! each of them, with the messages before it.

use vstd::prelude::*;
#[allow(unused_imports)]
use crate::handlers::util::Action;
#[allow(unused_imports)]
use crate::kaillera::protocol::{
    datagram, message_bytes, messages_bytes, parsed, wire_messages, GeneratorModel, MessageModel,
    ParseError, MAX_BODY,
};
#[allow(unused_imports)]
use crate::outbox::{action_datagrams, after_action, after_sends, send_datagrams, DatagramModel};
#[allow(unused_imports)]
use crate::wire::{le16, read_le16};

verus! {

/// A datagram starts with the number of its messages and has the newest first: its
/// number, its length with the type, its type and its body. Then come the ones before.
pub proof fn law_newest_message_comes_first(
    earlier: Seq<MessageModel>,
    message: MessageModel,
)
    requires
        earlier.len() < 255,
        message.data.len() <= 65534,
    ensures
        datagram(Seq::<MessageModel>::empty()) == seq![0u8],
        datagram(earlier.push(message)) == seq![(earlier.len() + 1) as u8] + le16(
            message.message_number,
        ) + le16((message.data.len() + 1) as u16) + seq![message.message_type] + message.data
            + datagram(earlier).skip(1),
{
    let all = earlier.push(message);
    assert(all.reverse().first() == message);
    assert(all.reverse().drop_first() =~= earlier.reverse());
    assert(datagram(earlier).skip(1) =~= messages_bytes(earlier.reverse()));
    assert(datagram(all) =~= seq![(earlier.len() + 1) as u8] + le16(message.message_number) + le16(
        (message.data.len() + 1) as u16,
    ) + seq![message.message_type] + message.data + datagram(earlier).skip(1));
    assert(Seq::<MessageModel>::empty().reverse() =~= Seq::empty());
    assert(datagram(Seq::<MessageModel>::empty()) =~= seq![0u8]);
}

/// A client's next datagram carries the new message under the next number and the
/// messages of the last datagram before it, three in all at most. Numbers go up by one
/// and wrap around, and what was sent last is kept.
pub proof fn law_datagrams_repeat_the_last_messages(
    m: GeneratorModel,
    message_type: u8,
    data: Seq<u8>,
)
    requires
        m.wf(),
    ensures
        ({
            let message = MessageModel { message_number: m.next_number, message_type, data };
            let all = m.recent.push(message);
            let carried = m.carried(message_type, data);
            let after = m.after(message_type, data);
            &&& carried == if all.len() <= 3 {
                all
            } else {
                all.skip(all.len() - 3)
            }
            &&& after.recent == carried
            &&& after.last == Some(datagram(carried))
            &&& after.next_number == (m.next_number + 1) % 65536
        }),
{
    let message = MessageModel { message_number: m.next_number, message_type, data };
    let all = m.recent.push(message);
    if all.len() > 3 {
        assert(m.recent.skip(1).push(message) =~= all.skip(1));
    }
}

/// Before anything is sent, numbers start at 0 and there is nothing to repeat.
pub proof fn law_numbering_starts_at_zero()
    ensures
        GeneratorModel::initial().next_number == 0,
        GeneratorModel::initial().recent.len() == 0,
        GeneratorModel::initial().last is None,
{
}

proof fn lemma_sends(
    outbox: Map<u64, GeneratorModel>,
    to: Seq<u64>,
    message_type: u8,
    data: Seq<u8>,
)
    requires
        to.no_duplicates(),
        data.len() <= MAX_BODY,
    ensures
        ({
            let after = after_sends(outbox, to, message_type, data);
            let known = to.filter(|a: u64| outbox.dom().contains(a));
            &&& after.dom() == outbox.dom()
            &&& forall|a: u64|
                outbox.dom().contains(a) ==> #[trigger] after[a] == if to.contains(a) {
                    outbox[a].after(message_type, data)
                } else {
                    outbox[a]
                }
            &&& send_datagrams(outbox, to, message_type, data) == Seq::new(
                known.len(),
                |i: int|
                    DatagramModel {
                        data: datagram(outbox[known[i]].carried(message_type, data)),
                        addr: known[i],
                    },
            )
        }),
    decreases to.len(),
{
    reveal(Seq::filter);
    let pred = |a: u64| outbox.dom().contains(a);
    let known = to.filter(pred);
    if to.len() > 0 {
        let front = to.drop_last();
        let last = to.last();
        lemma_sends(outbox, front, message_type, data);
        let before = after_sends(outbox, front, message_type, data);
        let after = after_sends(outbox, to, message_type, data);
        assert(!front.contains(last)) by {
            if front.contains(last) {
                let i = choose|i: int| 0 <= i < front.len() && front[i] == last;
                assert(to[i] == to[to.len() - 1]);
            }
        }
        assert(after.dom() =~= outbox.dom());
        assert forall|a: u64| outbox.dom().contains(a) implies #[trigger] after[a]
            == if to.contains(a) {
            outbox[a].after(message_type, data)
        } else {
            outbox[a]
        } by {
            assert(before.dom().contains(a));
            assert(before[a] == if front.contains(a) {
                outbox[a].after(message_type, data)
            } else {
                outbox[a]
            });
            assert(to.contains(a) <==> front.contains(a) || a == last) by {
                if to.contains(a) {
                    let i = choose|i: int| 0 <= i < to.len() && to[i] == a;
                    if i < front.len() {
                        assert(front[i] == a);
                    }
                }
                if front.contains(a) {
                    let i = choose|i: int| 0 <= i < front.len() && front[i] == a;
                    assert(to[i] == a);
                }
                assert(to[to.len() - 1] == last);
            }
        }
        assert(known == if pred(last) {
            front.filter(pred).push(last)
        } else {
            front.filter(pred)
        });
        if pred(last) {
            assert(before[last] == outbox[last]);
        }
    }
    assert(send_datagrams(outbox, to, message_type, data) =~= Seq::new(
        known.len(),
        |i: int|
            DatagramModel {
                data: datagram(outbox[known[i]].carried(message_type, data)),
                addr: known[i],
            },
    ));
}

/// A message to several clients makes one datagram for each of them whose messages are
/// numbered, in order, and for nobody else. Only the numbering of these goes on.
pub proof fn law_each_recipient_gets_one_datagram(
    outbox: Map<u64, GeneratorModel>,
    action: Action,
)
    requires
        action matches Action::Send { to, data, .. } && to@.no_duplicates() && data@.len()
            <= 65534,
    ensures
        action matches Action::Send { to, message_type, data } && {
            let after = after_action(outbox, action);
            let known = to@.filter(|a: u64| outbox.dom().contains(a));
            &&& after.dom() == outbox.dom()
            &&& forall|a: u64|
                outbox.dom().contains(a) ==> #[trigger] after[a] == if to@.contains(a) {
                    outbox[a].after(message_type, data@)
                } else {
                    outbox[a]
                }
            &&& action_datagrams(outbox, action) == Seq::new(
                known.len(),
                |i: int|
                    DatagramModel {
                        data: datagram(outbox[known[i]].carried(message_type, data@)),
                        addr: known[i],
                    },
            )
        },
{
    if let Action::Send { to, message_type, data } = action {
        lemma_sends(outbox, to@, message_type, data@);
    }
}

/// A message to who is not logged in makes one datagram, numbered 0, and changes no
/// numbering. A client's numbering starts afresh or ends without a datagram, and
/// without touching anybody else's.
pub proof fn law_other_actions_of_the_outbox(
    outbox: Map<u64, GeneratorModel>,
    action: Action,
)
    ensures
        action matches Action::SendAlone { to, message_type, data } ==> {
            &&& after_action(outbox, action) == outbox
            &&& data@.len() <= 65534 ==> action_datagrams(outbox, action) == seq![
                DatagramModel {
                    data: datagram(
                        seq![MessageModel { message_number: 0, message_type, data: data@ }],
                    ),
                    addr: to,
                },
            ]
        },
        action matches Action::StartNumbering { addr } ==> {
            &&& action_datagrams(outbox, action).len() == 0
            &&& after_action(outbox, action) == outbox.insert(addr, GeneratorModel::initial())
        },
        action matches Action::CloseSession { addr } ==> {
            &&& action_datagrams(outbox, action).len() == 0
            &&& after_action(outbox, action) == outbox.remove(addr)
        },
{
    if let Action::SendAlone { to, message_type, data } = action {
        let message = MessageModel { message_number: 0, message_type, data: data@ };
        assert(GeneratorModel::initial().carried(message_type, data@) =~= seq![message]);
    }
}

/// A message whose bytes are all there is read, and what follows it is read after it;
/// one that is cut short makes the datagram unreadable.
proof fn lemma_cut_short(messages: Seq<MessageModel>, k: int)
    requires
        forall|i: int|
            0 <= i < messages.len() ==> (#[trigger] messages[i]).data.len() <= MAX_BODY,
        0 <= k < messages_bytes(messages).len(),
    ensures
        wire_messages(messages_bytes(messages).take(k), messages.len()) == Err::<
            Seq<MessageModel>,
            ParseError,
        >(ParseError::Truncated),
    decreases messages.len(),
{
    if messages.len() > 0 {
        let first = messages[0];
        let rest = messages.drop_first();
        let whole = messages_bytes(messages);
        let head = message_bytes(first);
        let tail = messages_bytes(rest);
        assert(first.data.len() <= MAX_BODY);
        assert(whole == head + tail);
        let len = (first.data.len() + 1) as u16;
        assert(head.len() == 4 + len);
        if k >= 4 {
            let cut = whole.take(k);
            let after_number = le16(len) + cut.skip(4);
            assert(cut.skip(2) =~= after_number);
            crate::wire::law_le16_is_read_back(len, cut.skip(4));
            assert(read_le16(cut.skip(2)) == len);
            if k >= 4 + len {
                assert forall|i: int| 0 <= i < rest.len() implies (#[trigger] rest[i]).data.len()
                    <= MAX_BODY by {
                    assert(rest[i] == messages[i + 1]);
                }
                assert(cut.skip(4 + len) =~= tail.take(k - 4 - len));
                lemma_cut_short(rest, k - 4 - len);
            }
        }
    }
}

/// A datagram that is cut short is refused as a whole, and so is an empty one.
pub proof fn law_cut_datagram_is_refused(messages: Seq<MessageModel>, k: int)
    requires
        messages.len() <= 255,
        forall|i: int|
            0 <= i < messages.len() ==> (#[trigger] messages[i]).data.len() <= 65534,
        0 <= k < datagram(messages).len(),
    ensures
        parsed(datagram(messages).take(k)) is Err,
{
    let wire = messages.reverse();
    assert forall|i: int| 0 <= i < wire.len() implies (#[trigger] wire[i]).data.len()
        <= MAX_BODY by {
        assert(wire[i] == messages[messages.len() - 1 - i]);
    }
    if k > 0 {
        let cut = datagram(messages).take(k);
        assert(cut.skip(1) =~= messages_bytes(wire).take(k - 1));
        lemma_cut_short(wire, k - 1);
    }
}

/// A body that does not fit a message is not sent, and no numbering changes.
pub proof fn law_oversized_bodies_are_not_sent(outbox: Map<u64, GeneratorModel>, action: Action)
    requires
        match action {
            Action::Send { data, .. } => data@.len() > 65534,
            Action::SendAlone { data, .. } => data@.len() > 65534,
            _ => false,
        },
    ensures
        action_datagrams(outbox, action).len() == 0,
        after_action(outbox, action) == outbox,
{
    if let Action::Send { to, message_type, data } = action {
        lemma_none_sent(outbox, to@, message_type, data@);
    }
}

proof fn lemma_none_sent(
    outbox: Map<u64, GeneratorModel>,
    to: Seq<u64>,
    message_type: u8,
    data: Seq<u8>,
)
    requires
        data.len() > MAX_BODY,
    ensures
        after_sends(outbox, to, message_type, data) == outbox,
        send_datagrams(outbox, to, message_type, data).len() == 0,
    decreases to.len(),
{
    if to.len() > 0 {
        lemma_none_sent(outbox, to.drop_last(), message_type, data);
    }
}

} // verus!
