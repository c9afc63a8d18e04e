//! What holds of sessions: messages are taken once and in order, and nobody is
//! bothered about who was never there.

use vstd::prelude::*;
#[allow(unused_imports)]
use crate::handlers::membership_laws::{at_home, lemma_departed_home, lemma_quit_home};
#[allow(unused_imports)]
use crate::handlers::name_laws::{
    lemma_departed_names, lemma_quit_people, lemma_same_people, one_name_each,
};
#[allow(unused_imports)]
use crate::handlers::user::stale_left;
#[allow(unused_imports)]
use crate::handlers::util::ActionModel;
#[allow(unused_imports)]
use crate::kaillera::protocol::{
    datagram, law_sent_message_is_read_back, parsed, GeneratorModel, MessageModel, ParseError,
    MAX_BODY,
};
#[allow(unused_imports)]
use crate::session_manager::{
    counter_after, ended_outcome, in_sequence, is_dead, is_stalled, starting_counter,
    timeout_outcome,
};
#[allow(unused_imports)]
use crate::state::{GameModel, ServerModel, GAME_STATUS_PLAYING};

verus! {

/// The number `i` places after another; numbers wrap around.
pub open spec fn number_after(start: int, i: int) -> int {
    (start + i) % 65536
}

/// The messages that a session takes are numbered without a gap from the number
/// it expects, and the number it expects afterwards follows the last.
pub proof fn law_messages_are_taken_in_order(messages: Seq<MessageModel>, counter: u16)
    ensures
        forall|i: int|
            0 <= i < in_sequence(messages, counter).len() ==> (#[trigger] in_sequence(
                messages,
                counter,
            )[i]).message_number == number_after(counter as int, i),
        counter_after(messages, counter) == number_after(
            counter as int,
            in_sequence(messages, counter).len() as int,
        ),
    decreases messages.len(),
{
    if messages.len() > 0 {
        law_messages_are_taken_in_order(messages.drop_last(), counter);
    }
}

/// A packet with consecutive numbers, as senders make them.
pub open spec fn consecutive(messages: Seq<MessageModel>) -> bool {
    &&& messages.len() < 65536
    &&& forall|i: int|
        0 <= i < messages.len() ==> (#[trigger] messages[i]).message_number == number_after(
            messages[0].message_number as int,
            i,
        )
}

/// What a session takes of a consecutive packet: everything from the number it
/// expects on, if the packet has it, else nothing.
#[verifier::rlimit(30)]
proof fn lemma_consecutive(messages: Seq<MessageModel>, first: u16, counter: u16, n: int)
    requires
        0 <= n <= messages.len() < 65536,
        forall|i: int|
            0 <= i < messages.len() ==> (#[trigger] messages[i]).message_number == number_after(
                first as int,
                i,
            ),
    ensures
        ({
            let offset = (counter - first) % 65536;
            let front = messages.take(n);
            if offset < n {
                &&& counter_after(front, counter) == number_after(first as int, n)
                &&& in_sequence(front, counter) == front.skip(offset)
            } else {
                &&& counter_after(front, counter) == counter
                &&& in_sequence(front, counter).len() == 0
            }
        }),
    decreases n,
{
    if n > 0 {
        lemma_consecutive(messages, first, counter, n - 1);
        let front = messages.take(n);
        assert(front.drop_last() =~= messages.take(n - 1));
        assert(front.last() == messages[n - 1]);
        assert(messages[n - 1].message_number == number_after(first as int, n - 1));
        let offset = (counter - first) % 65536;
        if offset < n {
            assert(in_sequence(front, counter) =~= front.skip(offset));
        }
    }
}

/// What was missed is made up for: of a consecutive packet that holds the message
/// that a session waits for, the session takes that message and all that follow
/// it, and nothing else.
pub proof fn law_missed_messages_are_made_up_for(messages: Seq<MessageModel>, expected: int)
    requires
        consecutive(messages),
        0 <= expected < messages.len(),
    ensures
        in_sequence(messages, messages[expected].message_number) == messages.skip(expected),
{
    let first = messages[0].message_number;
    let counter = messages[expected].message_number;
    assert((counter - first) % 65536 == expected);
    lemma_consecutive(messages, first, counter, messages.len() as int);
    assert(messages.take(messages.len() as int) =~= messages);
}

/// The messages that a sender repeats are the last ones that it numbered.
pub open spec fn numbered(m: GeneratorModel) -> bool {
    forall|i: int|
        0 <= i < m.recent.len() ==> (#[trigger] m.recent[i]).message_number == number_after(
            m.next_number as int,
            i - m.recent.len(),
        )
}

/// A sender numbers its messages without a gap: the first is number 0, and each
/// that follows has the number after the one before.
pub proof fn law_sender_numbers_without_gap(m: GeneratorModel, message_type: u8, data: Seq<u8>)
    requires
        numbered(m),
    ensures
        numbered(GeneratorModel::initial()),
        numbered(m.after(message_type, data)),
        m.carried(message_type, data).last().message_number == m.next_number,
        m.after(message_type, data).next_number == number_after(m.next_number as int, 1),
{
    let after = m.after(message_type, data);
    assert forall|i: int| 0 <= i < after.recent.len() implies (
    #[trigger] after.recent[i]).message_number == number_after(
        after.next_number as int,
        i - after.recent.len(),
    ) by {
        if i < after.recent.len() - 1 {
            let j = i + m.recent.len() - (after.recent.len() - 1);
            assert(after.recent[i] == m.recent[j]);
            assert(m.recent[j].message_number == number_after(
                m.next_number as int,
                j - m.recent.len(),
            ));
        }
    }
}

/// Lost datagrams cost nothing while the next one still repeats what was in them:
/// a receiver that missed the last `missed` messages takes them, and then the new
/// one, from the datagram of the new one.
#[verifier::rlimit(30)]
pub proof fn law_lost_datagrams_are_made_up_for(
    m: GeneratorModel,
    message_type: u8,
    data: Seq<u8>,
    missed: int,
)
    requires
        m.wf(),
        numbered(m),
        data.len() <= MAX_BODY,
        0 <= missed < m.carried(message_type, data).len(),
    ensures
        ({
            let carried = m.carried(message_type, data);
            let expected = number_after(m.next_number as int, -missed) as u16;
            &&& parsed(datagram(carried)) == Ok::<Seq<MessageModel>, ParseError>(carried)
            &&& starting_counter(carried, expected) == expected
            &&& in_sequence(carried, expected) == carried.skip(carried.len() - 1 - missed)
            &&& counter_after(carried, expected) == m.after(message_type, data).next_number
        }),
{
    let carried = m.carried(message_type, data);
    let after = m.after(message_type, data);
    law_sent_message_is_read_back(m, message_type, data);
    law_sender_numbers_without_gap(m, message_type, data);
    let n = carried.len() as int;
    assert forall|i: int| 0 <= i < n implies (#[trigger] carried[i]).message_number == number_after(
        carried[0].message_number as int,
        i,
    ) by {
        assert(after.recent[i] == carried[i]);
        assert(after.recent[0] == carried[0]);
    }
    assert(after.recent[n - 1 - missed] == carried[n - 1 - missed]);
    law_missed_messages_are_made_up_for(carried, n - 1 - missed);
    lemma_consecutive(
        carried,
        carried[0].message_number,
        carried[n - 1 - missed].message_number,
        n,
    );
    assert(carried.take(n) =~= carried);
}

/// A packet that comes twice is taken once: right after it, a session takes
/// nothing of the same packet, unless the packet starts a new sequence.
pub proof fn law_repeated_packet_is_ignored(messages: Seq<MessageModel>, counter: u16)
    requires
        consecutive(messages),
        !(messages.len() == 1 && messages[0].message_number == 0),
    ensures
        ({
            let after = counter_after(messages, starting_counter(messages, counter));
            in_sequence(messages, starting_counter(messages, after)).len() == 0
        }),
{
    let after = counter_after(messages, counter);
    if messages.len() > 0 {
        let first = messages[0].message_number;
        let n = messages.len() as int;
        assert(messages.take(n) =~= messages);
        lemma_consecutive(messages, first, counter, n);
        let offset = (counter - first) % 65536;
        if offset < n {
            assert(after == (first + n) % 65536);
            assert((after - first) % 65536 == n);
        } else {
            assert(after == counter);
        }
        assert((after - first) % 65536 >= n);
        lemma_consecutive(messages, first, after, n);
    }
}

/// An address that never logged in is let go silently when it times out.
pub proof fn law_stranger_times_out_silently(m: ServerModel, addr: u64)
    requires
        m.client(addr) is None,
    ensures
        timeout_outcome(m, addr, None).actions == Seq::<ActionModel>::empty(),
        timeout_outcome(m, addr, None).state.games == m.games,
{
    assert(timeout_outcome(m, addr, None).actions =~= Seq::<ActionModel>::empty());
}

/// A player who dropped out of a live game is not waited for: it is neither
/// stalled nor gone, however long it is silent.
pub proof fn law_dropped_player_is_not_waited_for(game: GameModel, slot: int, now: u64)
    requires
        game.sync matches Some(sync) && slot < sync.players() && sync.inner.sync.dropped[slot],
    ensures
        !is_stalled(game, slot, now),
        !is_dead(game, slot, now),
{
}

/// Nobody is stalled and gone at once, and nobody is either outside a game that
/// is played.
pub proof fn law_stalled_and_gone_differ(game: GameModel, slot: int, now: u64)
    ensures
        !(is_stalled(game, slot, now) && is_dead(game, slot, now)),
        game.game_status != GAME_STATUS_PLAYING ==> !is_stalled(game, slot, now) && !is_dead(
            game,
            slot,
            now,
        ),
{
}

/// When a session ends, whoever is logged in is still present in no room but the
/// one that it says it is in.
pub proof fn law_ended_session_leaves_everybody_at_home(m: ServerModel, addr: u64, reason: Seq<u8>)
    requires
        m.wf(),
        at_home(m),
    ensures
        at_home(ended_outcome(m, addr, reason).state),
{
    lemma_quit_home(m, addr);
    lemma_departed_home(stale_left(m, addr).state, addr, reason);
}

/// When a session ends, everybody who is logged in still has a name of its own, and
/// the configuration stays.
pub proof fn law_ended_session_keeps_names_distinct(m: ServerModel, addr: u64, reason: Seq<u8>)
    requires
        one_name_each(m),
    ensures
        one_name_each(ended_outcome(m, addr, reason).state),
        ended_outcome(m, addr, reason).state.config == m.config,
{
    lemma_quit_people(m, addr);
    lemma_same_people(m, stale_left(m, addr).state);
    lemma_departed_names(stale_left(m, addr).state, addr, reason);
}

} // verus!
