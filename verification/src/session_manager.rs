//! Sessions: one per address, from its first packet to its end.

use std::collections::HashMap;
use vstd::prelude::*;
#[allow(unused_imports)]
use vstd::utf8::encode_utf8;
use crate::handlers::game::handle_quit_game;
use crate::handlers::user::depart;
#[allow(unused_imports)]
use crate::handlers::user::{departed, stale_left};
use crate::handlers::util::{broadcast_packet, Action};
#[allow(unused_imports)]
use crate::handlers::util::{
    actions_view, actions_wf, done, to_all, yields, ActionModel, Outcome,
};
use crate::handlers::{accepts, handle_message, NUM_ACKS_FOR_SPEED_TEST};
#[allow(unused_imports)]
use crate::handlers::{acceptable, elapsed, possible_outcome};
use crate::kaillera::message_types::GLOBAL_CHAT;
use crate::kaillera::protocol::{parse_packet, ParseError, ParsedMessage};
#[allow(unused_imports)]
use crate::kaillera::protocol::{messages_view, parsed, MessageModel};
use crate::map_util::keys_of;
#[allow(unused_imports)]
use crate::map_util::{lemma_contains_push, lemma_next_item, lists_keys};
use crate::packet_util::build_global_chat_packet;
#[allow(unused_imports)]
use crate::packet_util::chat_body;
use crate::state::{AppState, GameInfo, GamePlayerInfo, ServerError, GAME_STATUS_PLAYING};
#[allow(unused_imports)]
use crate::state::{next_number16, ClientModel, GameModel, PlayerModel, ServerModel};
use crate::text::{bytes_for_log, decimal_string, text_bytes};
#[allow(unused_imports)]
use crate::text::{decimal, log_text};

verus! {

broadcast use vstd::std_specs::hash::group_hash_axioms;

/// Silence, in nanoseconds, after which a logged-in session ends.
pub const SESSION_TIMEOUT: u64 = 120_000_000_000;

/// Silence after which a session ends that has not logged in. Server browsers
/// and stray packets are no users; they are let go quickly and silently.
pub const PRE_LOGIN_TIMEOUT: u64 = 15_000_000_000;

/// Time between two looks for sessions that timed out.
pub const CLEANUP_INTERVAL: u64 = 3_000_000_000;

/// Time between two resends during a login.
pub const LOGIN_ACK_RESEND_INTERVAL: u64 = 100_000_000;

/// Silence of a playing client after which its last datagram is resent.
pub const STALL_THRESHOLD: u64 = 100_000_000;

/// Time between two looks for stalled clients.
pub const STALL_RESEND_INTERVAL: u64 = 50_000_000;

/// Silence of a playing client after which it is gone rather than stalled.
pub const PLAYING_INPUT_TIMEOUT: u64 = 15_000_000_000;

/// The text of an address: the four bytes of the IPv4 address and the port.
pub open spec fn addr_text(addr: u64) -> Seq<char> {
    decimal((addr / 0x100_0000_0000 % 256) as nat) + "."@ + decimal(
        (addr / 0x1_0000_0000 % 256) as nat,
    ) + "."@ + decimal((addr / 0x100_0000 % 256) as nat) + "."@ + decimal(
        (addr / 0x1_0000 % 256) as nat,
    ) + ":"@ + decimal((addr % 0x1_0000) as nat)
}

/// The text of an address.
pub fn addr_string(addr: u64) -> (text: String)
    ensures
        text@ == addr_text(addr),
{
    let first: String = decimal_string(addr / 0x100_0000_0000 % 256);
    let second: String = decimal_string(addr / 0x1_0000_0000 % 256);
    let third: String = decimal_string(addr / 0x100_0000 % 256);
    let fourth: String = decimal_string(addr / 0x1_0000 % 256);
    let port: String = decimal_string(addr % 0x1_0000);
    first.concat(".").concat(second.as_str()).concat(".").concat(third.as_str()).concat(".").concat(
        fourth.as_str(),
    ).concat(":").concat(port.as_str())
}

/// The lobby notice that a user timed out, with all that identifies it.
pub open spec fn timeout_notice(name: Seq<char>, user_id: u16, addr: u64) -> Seq<char> {
    "[Server] "@ + name + " (#"@ + decimal(user_id as nat) + ", "@ + addr_text(addr)
        + ") timed out (keepalive not received)"@
}

/// The lobby notice that a user timed out.
fn timeout_text(name: &str, user_id: u16, addr: u64) -> (text: String)
    ensures
        text@ == timeout_notice(name@, user_id, addr),
{
    let id: String = decimal_string(user_id as u64);
    let place: String = addr_string(addr);
    "[Server] ".to_owned().concat(name).concat(" (#").concat(id.as_str()).concat(", ").concat(
        place.as_str(),
    ).concat(") timed out (keepalive not received)")
}

/// What a session knows of its client: the next message number that is expected,
/// and who it is, once it logged in.
pub struct Session {
    pub packet_counter: u16,
    pub identity: Option<(String, u16)>,
}

/// A session as a mathematical value.
#[verifier::ext_equal]
pub struct SessionModel {
    pub packet_counter: u16,
    pub identity: Option<(Seq<char>, u16)>,
}

impl View for Session {
    type V = SessionModel;

    open spec fn view(&self) -> SessionModel {
        SessionModel {
            packet_counter: self.packet_counter,
            identity: match self.identity {
                Some((name, user_id)) => Some((name@, user_id)),
                None => None,
            },
        }
    }
}

/// A packet that holds a single message with number 0 starts a new sequence.
pub open spec fn starting_counter(messages: Seq<MessageModel>, counter: u16) -> u16 {
    if messages.len() == 1 && messages[0].message_number == 0 {
        0
    } else {
        counter
    }
}

/// The expected number after the messages of a packet.
pub open spec fn counter_after(messages: Seq<MessageModel>, counter: u16) -> u16
    decreases messages.len(),
{
    if messages.len() == 0 {
        counter
    } else {
        let before = counter_after(messages.drop_last(), counter);
        if messages.last().message_number == before {
            next_number16(before)
        } else {
            before
        }
    }
}

/// The messages of a packet that are next in sequence, in order. Others were
/// processed before, or come too early.
pub open spec fn in_sequence(messages: Seq<MessageModel>, counter: u16) -> Seq<MessageModel>
    decreases messages.len(),
{
    if messages.len() == 0 {
        Seq::empty()
    } else {
        let before = in_sequence(messages.drop_last(), counter);
        if messages.last().message_number == counter_after(messages.drop_last(), counter) {
            before.push(messages.last())
        } else {
            before
        }
    }
}

/// Picks the messages of a packet that are next in sequence, and gives the number
/// that is expected after them.
pub fn select_messages(messages: Vec<ParsedMessage>, counter: u16) -> (selected: (
    Vec<ParsedMessage>,
    u16,
))
    ensures
        ({
            let all = messages_view(messages@);
            let start = starting_counter(all, counter);
            &&& messages_view(selected.0@) == in_sequence(all, start)
            &&& selected.1 == counter_after(all, start)
        }),
{
    let ghost all = messages_view(messages@);
    let mut expected: u16 = counter;
    if messages.len() == 1 && messages[0].message_number == 0 {
        assert(all[0] == messages@[0]@);
        expected = 0;
    }
    assert(messages@.len() == 1 ==> all[0] == messages@[0]@);
    let ghost start = expected;
    assert(start == starting_counter(all, counter));
    let mut picked: Vec<ParsedMessage> = Vec::new();
    let mut i: usize = 0;
    assert(all.take(0) =~= Seq::empty());
    assert(messages_view(picked@) =~= Seq::empty());
    while i < messages.len()
        invariant
            i <= messages@.len(),
            all == messages_view(messages@),
            messages_view(picked@) == in_sequence(all.take(i as int), start),
            expected == counter_after(all.take(i as int), start),
        decreases messages.len() - i,
    {
        assert(all.take(i + 1).drop_last() =~= all.take(i as int));
        assert(all.take(i + 1).last() == messages@[i as int]@);
        if messages[i].message_number == expected {
            let message = ParsedMessage {
                message_number: messages[i].message_number,
                message_type: messages[i].message_type,
                data: crate::bytes_util::copy_bytes(messages[i].data.as_slice()),
            };
            let ghost listed = picked@;
            picked.push(message);
            assert(messages_view(picked@) =~= messages_view(listed).push(message@));
            expected = if expected == u16::MAX {
                0
            } else {
                expected + 1
            };
        }
        i += 1;
    }
    assert(all.take(i as int) =~= all);
    (picked, expected)
}

/// The state after the first `n` of these outcomes.
pub open spec fn state_after(m: ServerModel, outcomes: Seq<Outcome<()>>, n: int) -> ServerModel {
    if n == 0 {
        m
    } else {
        outcomes[n - 1].state
    }
}

/// The actions of these outcomes, in order.
pub open spec fn all_actions(outcomes: Seq<Outcome<()>>) -> Seq<ActionModel>
    decreases outcomes.len(),
{
    if outcomes.len() == 0 {
        Seq::empty()
    } else {
        all_actions(outcomes.drop_last()) + outcomes.last().actions
    }
}

/// Each message leads from the state before it to its outcome.
pub open spec fn follows(
    m: ServerModel,
    src: u64,
    messages: Seq<MessageModel>,
    now_secs: u64,
    now: u64,
    outcomes: Seq<Outcome<()>>,
) -> bool {
    forall|i: int|
        0 <= i < outcomes.len() ==> #[trigger] acceptable(
            state_after(m, outcomes, i),
            src,
            messages[i],
        ) && possible_outcome(
            state_after(m, outcomes, i),
            src,
            messages[i],
            now_secs,
            now,
            outcomes[i],
        )
}

/// The messages were handled one after the other: `results` holds a result for
/// each, up to the first that cannot be handled.
pub open spec fn messages_handled(
    m: ServerModel,
    src: u64,
    messages: Seq<MessageModel>,
    now_secs: u64,
    now: u64,
    outcomes: Seq<Outcome<()>>,
    results: Seq<Result<(), ServerError>>,
) -> bool {
    &&& outcomes.len() <= messages.len()
    &&& follows(m, src, messages, now_secs, now, outcomes)
    &&& outcomes.len() < messages.len() ==> !acceptable(
        state_after(m, outcomes, outcomes.len() as int),
        src,
        messages[outcomes.len() as int],
    )
    &&& results == outcomes.map_values(|o: Outcome<()>| o.result)
}

/// Handles messages one after the other. A message that fails does not stop the
/// next; one that cannot be handled does.
#[verifier::rlimit(40)]
pub fn handle_messages(
    messages: Vec<ParsedMessage>,
    src: u64,
    now_secs: u64,
    now: u64,
    state: &mut AppState,
    out: &mut Vec<Action>,
) -> (results: Vec<Result<(), ServerError>>)
    requires
        old(state)@.wf(),
    ensures
        final(state)@.wf(),
        exists|outcomes: Seq<Outcome<()>>|
            #![trigger all_actions(outcomes)]
            {
                &&& messages_handled(
                    old(state)@,
                    src,
                    messages_view(messages@),
                    now_secs,
                    now,
                    outcomes,
                    results@,
                )
                &&& final(state)@ == state_after(old(state)@, outcomes, outcomes.len() as int)
                &&& actions_view(final(out)@) == actions_view(old(out)@) + all_actions(outcomes)
                &&& actions_wf(old(out)@) ==> actions_wf(final(out)@)
            },
{
    let ghost m = state@;
    let ghost before = actions_view(out@);
    let ghost all = messages_view(messages@);
    let ghost mut outcomes: Seq<Outcome<()>> = Seq::empty();
    let mut results: Vec<Result<(), ServerError>> = Vec::new();
    let mut i: usize = 0;
    assert(before + all_actions(outcomes) =~= before);
    assert(results@ =~= outcomes.map_values(|o: Outcome<()>| o.result));
    while i < messages.len()
        invariant
            i <= messages@.len(),
            all == messages_view(messages@),
            m == old(state)@,
            before == actions_view(old(out)@),
            state@.wf(),
            outcomes.len() == i,
            follows(m, src, all, now_secs, now, outcomes),
            state@ == state_after(m, outcomes, i as int),
            actions_view(out@) == before + all_actions(outcomes),
            actions_wf(old(out)@) ==> actions_wf(out@),
            results@ == outcomes.map_values(|o: Outcome<()>| o.result),
        decreases messages.len() - i,
    {
        assert(all[i as int] == messages@[i as int]@);
        if !accepts(&messages[i], src, state) {
            assert(messages_handled(m, src, all, now_secs, now, outcomes, results@));
            return results;
        }
        let message = ParsedMessage {
            message_number: messages[i].message_number,
            message_type: messages[i].message_type,
            data: crate::bytes_util::copy_bytes(messages[i].data.as_slice()),
        };
        assert(message@ =~= all[i as int]);
        let ghost here = state@;
        let ghost listed = out@;
        let result = handle_message(message, src, now_secs, now, state, out);
        results.push(result);
        proof {
            let outcome = choose|outcome: Outcome<()>|
                #![trigger yields(outcome, state@, listed, out@, result)]
                possible_outcome(here, src, all[i as int], now_secs, now, outcome) && yields(
                    outcome,
                    state@,
                    listed,
                    out@,
                    result,
                );
            let more = outcomes.push(outcome);
            assert(more.drop_last() =~= outcomes);
            assert(actions_view(out@) =~= before + all_actions(more));
            assert(results@ =~= more.map_values(|o: Outcome<()>| o.result));
            assert forall|j: int| 0 <= j < more.len() implies #[trigger] acceptable(
                state_after(m, more, j),
                src,
                all[j],
            ) && possible_outcome(
                state_after(m, more, j),
                src,
                all[j],
                now_secs,
                now,
                more[j],
            ) by {
                assert(state_after(m, more, j) == state_after(m, outcomes, j));
                if j < i {
                    assert(acceptable(state_after(m, outcomes, j), src, all[j]));
                }
            }
            outcomes = more;
        }
        i += 1;
    }
    assert(messages_handled(m, src, all, now_secs, now, outcomes, results@));
    results
}

/// What came of a packet.
pub enum PacketReport {
    /// The packet could not be read.
    Unreadable(ParseError),
    /// The messages in sequence were handled, with these results.
    Handled(Vec<Result<(), ServerError>>),
    /// The messages in sequence were handled with these results, up to one that
    /// cannot be handled.
    Refused(Vec<Result<(), ServerError>>),
}

/// Reads a packet of a session and handles its messages that are next in
/// sequence.
pub fn process_packet_in_session(
    data: &[u8],
    addr: u64,
    now_secs: u64,
    now: u64,
    packet_counter: &mut u16,
    state: &mut AppState,
    out: &mut Vec<Action>,
) -> (report: PacketReport)
    requires
        old(state)@.wf(),
    ensures
        final(state)@.wf(),
        actions_wf(old(out)@) ==> actions_wf(final(out)@),
        match parsed(data@) {
            Err(error) => {
                &&& report == PacketReport::Unreadable(error)
                &&& final(state)@ == old(state)@
                &&& final(out)@ == old(out)@
                &&& *final(packet_counter) == *old(packet_counter)
            },
            Ok(messages) => {
                let start = starting_counter(messages, *old(packet_counter));
                let selected = in_sequence(messages, start);
                &&& *final(packet_counter) == counter_after(messages, start)
                &&& exists|outcomes: Seq<Outcome<()>>|
                    #![trigger all_actions(outcomes)]
                    {
                        &&& report matches PacketReport::Handled(results) ==> messages_handled(
                            old(state)@,
                            addr,
                            selected,
                            now_secs,
                            now,
                            outcomes,
                            results@,
                        ) && outcomes.len() == selected.len()
                        &&& report matches PacketReport::Refused(results) ==> messages_handled(
                            old(state)@,
                            addr,
                            selected,
                            now_secs,
                            now,
                            outcomes,
                            results@,
                        ) && outcomes.len() < selected.len()
                        &&& !(report is Unreadable)
                        &&& final(state)@ == state_after(
                            old(state)@,
                            outcomes,
                            outcomes.len() as int,
                        )
                        &&& actions_view(final(out)@) == actions_view(old(out)@) + all_actions(
                            outcomes,
                        )
                    }
            },
        },
{
    match parse_packet(data) {
        Ok(messages) => {
            let (selected, expected) = select_messages(messages, *packet_counter);
            *packet_counter = expected;
            let count: usize = selected.len();
            assert(messages_view(selected@).len() == count);
            let results = handle_messages(selected, addr, now_secs, now, state, out);
            if results.len() == count {
                PacketReport::Handled(results)
            } else {
                PacketReport::Refused(results)
            }
        },
        Err(error) => PacketReport::Unreadable(error),
    }
}

/// Who a session belongs to: what it knew, else the client that is logged in now.
pub open spec fn known_identity(
    identity: Option<(Seq<char>, u16)>,
    m: ServerModel,
    addr: u64,
) -> Option<(Seq<char>, u16)> {
    match identity {
        Some(_) => identity,
        None => match m.client(addr) {
            Some(client) => Some((log_text(client.username), client.user_id)),
            None => None,
        },
    }
}

impl Session {
    /// A session before its first packet.
    pub fn new() -> (session: Self)
        ensures
            session@ == (SessionModel { packet_counter: 0, identity: None }),
    {
        Self { packet_counter: 0, identity: None }
    }

    /// The silence after which the session ends: short until it logged in.
    pub fn recv_timeout(&self) -> (timeout: u64)
        ensures
            timeout == if self@.identity is Some {
                SESSION_TIMEOUT
            } else {
                PRE_LOGIN_TIMEOUT
            },
    {
        if self.identity.is_some() {
            SESSION_TIMEOUT
        } else {
            PRE_LOGIN_TIMEOUT
        }
    }

    /// Remembers who logged in, so that a later notice can name it even when the
    /// client is gone already.
    pub fn learn_identity(&mut self, addr: u64, state: &AppState)
        ensures
            final(self)@ == (SessionModel {
                identity: known_identity(old(self)@.identity, state@, addr),
                ..old(self)@
            }),
    {
        if self.identity.is_none() {
            if let Some(client) = state.get_client(addr) {
                let name: String = bytes_for_log(client.username.as_slice());
                self.identity = Some((name, client.user_id));
            }
        }
    }

    /// Takes a packet: notes that the client is there, handles the packet, and
    /// remembers who logged in.
    pub fn on_packet(
        &mut self,
        data: &[u8],
        addr: u64,
        now_secs: u64,
        now: u64,
        state: &mut AppState,
        out: &mut Vec<Action>,
    ) -> (report: PacketReport)
        requires
            old(state)@.wf(),
        ensures
            final(state)@.wf(),
            actions_wf(old(out)@) ==> actions_wf(final(out)@),
            final(self)@.identity == known_identity(old(self)@.identity, final(state)@, addr),
            match parsed(data@) {
                Err(error) => {
                    &&& report == PacketReport::Unreadable(error)
                    &&& final(state)@ == seen(old(state)@, addr, now_secs)
                    &&& final(out)@ == old(out)@
                    &&& final(self)@.packet_counter == old(self)@.packet_counter
                },
                Ok(messages) => {
                    let start = starting_counter(messages, old(self)@.packet_counter);
                    let selected = in_sequence(messages, start);
                    let m = seen(old(state)@, addr, now_secs);
                    &&& final(self)@.packet_counter == counter_after(messages, start)
                    &&& exists|outcomes: Seq<Outcome<()>>|
                        #![trigger all_actions(outcomes)]
                        {
                            &&& report matches PacketReport::Handled(results) ==> messages_handled(
                                m,
                                addr,
                                selected,
                                now_secs,
                                now,
                                outcomes,
                                results@,
                            ) && outcomes.len() == selected.len()
                            &&& report matches PacketReport::Refused(results) ==> messages_handled(
                                m,
                                addr,
                                selected,
                                now_secs,
                                now,
                                outcomes,
                                results@,
                            ) && outcomes.len() < selected.len()
                            &&& !(report is Unreadable)
                            &&& final(state)@ == state_after(m, outcomes, outcomes.len() as int)
                            &&& actions_view(final(out)@) == actions_view(old(out)@)
                                + all_actions(outcomes)
                        }
                },
            },
    {
        state.update_client_activity(addr, now_secs);
        let mut counter: u16 = self.packet_counter;
        let report = process_packet_in_session(
            data,
            addr,
            now_secs,
            now,
            &mut counter,
            state,
            out,
        );
        self.packet_counter = counter;
        self.learn_identity(addr, state);
        report
    }

    /// The session timed out. A client that is logged in is announced as timed
    /// out and removed; one that is gone already is only announced; an address
    /// that never logged in is let go silently.
    pub fn on_timeout(&self, addr: u64, state: &mut AppState, out: &mut Vec<Action>)
        requires
            old(state)@.wf(),
        ensures
            final(state)@.wf(),
            yields(
                timeout_outcome(old(state)@, addr, self@.identity),
                final(state)@,
                old(out)@,
                final(out)@,
                Ok::<(), ServerError>(()),
            ),
    {
        let ghost m = state@;
        let ghost before = actions_view(out@);
        let ghost outcome = timeout_outcome(m, addr, self@.identity);
        match state.get_client(addr) {
            Some(client) => {
                let name: String = bytes_for_log(client.username.as_slice());
                send_timeout_notice(name.as_str(), client.user_id, addr, state, out);
            },
            None => {
                if let Some((name, user_id)) = &self.identity {
                    send_timeout_notice(name.as_str(), *user_id, addr, state, out);
                }
            },
        }
        let reason: Vec<u8> = text_bytes("timeout");
        end_client(addr, reason.as_slice(), state, out);
        assert(actions_view(out@) =~= before + outcome.actions);
    }
}

/// The state once the client at an address was heard of.
pub open spec fn seen(m: ServerModel, addr: u64, now_secs: u64) -> ServerModel {
    match m.client(addr) {
        Some(client) => m.with_client(
            addr,
            ClientModel { last_activity_secs: now_secs, ..client },
        ),
        None => m,
    }
}

/// The lobby notice that a user timed out.
pub open spec fn timeout_action(
    m: ServerModel,
    name: Seq<char>,
    user_id: u16,
    addr: u64,
) -> ActionModel {
    to_all(
        m,
        GLOBAL_CHAT,
        chat_body(encode_utf8("Server"@), encode_utf8(timeout_notice(name, user_id, addr))),
    )
}

/// Tells the lobby that a user timed out.
fn send_timeout_notice(
    name: &str,
    user_id: u16,
    addr: u64,
    state: &AppState,
    out: &mut Vec<Action>,
)
    ensures
        actions_view(final(out)@) == actions_view(old(out)@).push(
            timeout_action(state@, name@, user_id, addr),
        ),
        actions_wf(old(out)@) ==> actions_wf(final(out)@),
{
    let notice: String = timeout_text(name, user_id, addr);
    let source: Vec<u8> = text_bytes("Server");
    let line: Vec<u8> = text_bytes(notice.as_str());
    let data: Vec<u8> = build_global_chat_packet(source.as_slice(), line.as_slice());
    broadcast_packet(state, out, GLOBAL_CHAT, data);
}

/// The client at an address goes, where there is one: it leaves its room, and the
/// others are told why it left.
pub open spec fn ended_outcome(m: ServerModel, addr: u64, reason: Seq<u8>) -> Outcome<()> {
    let left = stale_left(m, addr);
    let gone = departed(left.state, addr, reason);
    done(gone.state, left.actions + gone.actions)
}

/// A session that timed out.
pub open spec fn timeout_outcome(
    m: ServerModel,
    addr: u64,
    identity: Option<(Seq<char>, u16)>,
) -> Outcome<()> {
    let notice = match m.client(addr) {
        Some(client) => seq![
            timeout_action(m, log_text(client.username), client.user_id, addr),
        ],
        None => match identity {
            Some((name, user_id)) => seq![timeout_action(m, name, user_id, addr)],
            None => Seq::empty(),
        },
    };
    let ended = ended_outcome(m, addr, encode_utf8("timeout"@));
    done(ended.state, notice + ended.actions)
}

/// Removes the client at an address, if there is one: it leaves its room, and the
/// others are told why it left.
pub fn end_client(addr: u64, reason: &[u8], state: &mut AppState, out: &mut Vec<Action>)
    requires
        old(state)@.wf(),
    ensures
        final(state)@.wf(),
        yields(
            ended_outcome(old(state)@, addr, reason@),
            final(state)@,
            old(out)@,
            final(out)@,
            Ok::<(), ServerError>(()),
        ),
{
    let ghost m = state@;
    let ghost before = actions_view(out@);
    if let Some(client) = state.get_client(addr) {
        if client.game_id.is_some() {
            let _ = handle_quit_game(Vec::new(), addr, state, out);
        }
    }
    assert(state@ == stale_left(m, addr).state);
    assert(actions_view(out@) =~= before + stale_left(m, addr).actions);
    depart(addr, reason, state, out);
    assert(actions_view(out@) =~= before + ended_outcome(m, addr, reason@).actions);
}

/// The session of an address was torn down: its client goes as disconnected.
pub fn on_closed(addr: u64, state: &mut AppState, out: &mut Vec<Action>)
    requires
        old(state)@.wf(),
    ensures
        final(state)@.wf(),
        yields(
            ended_outcome(old(state)@, addr, encode_utf8("disconnected"@)),
            final(state)@,
            old(out)@,
            final(out)@,
            Ok::<(), ServerError>(()),
        ),
{
    let reason: Vec<u8> = text_bytes("disconnected");
    end_client(addr, reason.as_slice(), state, out);
}

/// The session of an address was found expired: its client goes as timed out.
pub fn on_expired(addr: u64, state: &mut AppState, out: &mut Vec<Action>)
    requires
        old(state)@.wf(),
    ensures
        final(state)@.wf(),
        yields(
            ended_outcome(old(state)@, addr, encode_utf8("timeout"@)),
            final(state)@,
            old(out)@,
            final(out)@,
            Ok::<(), ServerError>(()),
        ),
{
    let reason: Vec<u8> = text_bytes("timeout");
    end_client(addr, reason.as_slice(), state, out);
}

/// When each session was last heard of.
pub struct SessionTable {
    last_seen: HashMap<u64, u64>,
}

impl View for SessionTable {
    type V = Map<u64, u64>;

    closed spec fn view(&self) -> Map<u64, u64> {
        self.last_seen@
    }
}

/// A session that was last heard of then has expired.
pub open spec fn is_expired(last_seen: u64, now: u64) -> bool {
    elapsed(last_seen, now) > SESSION_TIMEOUT
}

impl SessionTable {
    /// A table without sessions.
    pub fn new() -> (table: Self)
        ensures
            table@ == Map::<u64, u64>::empty(),
    {
        Self { last_seen: HashMap::new() }
    }

    /// Whether an address has a session. A packet of an address without one
    /// starts one.
    pub fn contains(&self, addr: u64) -> (known: bool)
        ensures
            known == self@.dom().contains(addr),
    {
        self.last_seen.contains_key(&addr)
    }

    /// Starts a session.
    pub fn insert(&mut self, addr: u64, now: u64)
        ensures
            final(self)@ == old(self)@.insert(addr, now),
    {
        self.last_seen.insert(addr, now);
    }

    /// Notes that a session was heard of, if there is one.
    pub fn touch(&mut self, addr: u64, now: u64)
        ensures
            final(self)@ == if old(self)@.dom().contains(addr) {
                old(self)@.insert(addr, now)
            } else {
                old(self)@
            },
    {
        if self.last_seen.contains_key(&addr) {
            self.last_seen.insert(addr, now);
        }
    }

    /// Ends a session. Tells whether there was one.
    pub fn remove(&mut self, addr: u64) -> (known: bool)
        ensures
            final(self)@ == old(self)@.remove(addr),
            known == old(self)@.dom().contains(addr),
    {
        let removed = self.last_seen.remove(&addr);
        removed.is_some()
    }

    /// Ends all sessions that were silent for too long, and lists each once.
    pub fn remove_expired(&mut self, now: u64) -> (expired: Vec<u64>)
        ensures
            expired@.no_duplicates(),
            forall|addr: u64|
                #[trigger] expired@.contains(addr) <==> old(self)@.dom().contains(addr)
                    && is_expired(old(self)@[addr], now),
            final(self)@ == old(self)@.remove_keys(expired@.to_set()),
    {
        let ghost before = self@;
        let addrs: Vec<u64> = keys_of(&self.last_seen);
        let mut expired: Vec<u64> = Vec::new();
        let mut i: usize = 0;
        assert(before.remove_keys(expired@.to_set()) =~= before);
        while i < addrs.len()
            invariant
                i <= addrs@.len(),
                lists_keys(addrs@, before),
                expired@.no_duplicates(),
                forall|addr: u64|
                    #[trigger] expired@.contains(addr) <==> addrs@.take(i as int).contains(addr)
                        && is_expired(before[addr], now),
                self@ == before.remove_keys(expired@.to_set()),
            decreases addrs.len() - i,
        {
            let addr: u64 = addrs[i];
            assert(addrs@.to_set().contains(addr));
            proof {
                lemma_next_item(addrs@, i as int);
            }
            if let Some(last) = self.last_seen.get(&addr) {
                let last_seen: u64 = *last;
                assert(before[addr] == last_seen);
                let silent: u64 = if now > last_seen {
                    now - last_seen
                } else {
                    0
                };
                if silent > SESSION_TIMEOUT {
                    let ghost listed = expired@;
                    expired.push(addr);
                    self.last_seen.remove(&addr);
                    proof {
                        lemma_contains_push(listed, addr);
                    }
                    assert(self@ =~= before.remove_keys(expired@.to_set()));
                }
            }
            i += 1;
        }
        assert forall|addr: u64|
            #[trigger] expired@.contains(addr) <==> before.dom().contains(addr) && is_expired(
                before[addr],
                now,
            ) by {
            assert(addrs@.take(i as int) =~= addrs@);
            assert(addrs@.to_set().contains(addr) == addrs@.contains(addr));
        }
        expired
    }
}

/// How long a playing client may be silent before a stall is assumed.
pub open spec fn stall_threshold(player: PlayerModel) -> u64 {
    match player.input_stall_grace {
        Some(grace) => grace,
        None => STALL_THRESHOLD,
    }
}

/// A player of a live game who is waited for: it plays, was not dropped, and sent
/// input before. Gives how long it has been silent.
pub open spec fn silence(game: GameModel, slot: int, now: u64) -> Option<nat> {
    let waited_for = game.game_status == GAME_STATUS_PLAYING && match game.sync {
        Some(sync) => !(slot < sync.players() && sync.inner.sync.dropped[slot]),
        None => true,
    };
    match game.players[slot].last_game_data_recv {
        Some(last) => if waited_for {
            Some(elapsed(last, now))
        } else {
            None
        },
        None => None,
    }
}

/// A player is gone.
pub open spec fn is_dead(game: GameModel, slot: int, now: u64) -> bool {
    silence(game, slot, now) matches Some(nanos) && nanos >= PLAYING_INPUT_TIMEOUT
}

/// A player is stalled, but not gone.
pub open spec fn is_stalled(game: GameModel, slot: int, now: u64) -> bool {
    silence(game, slot, now) matches Some(nanos) && nanos < PLAYING_INPUT_TIMEOUT && nanos
        >= stall_threshold(game.players[slot])
}

/// The stalled players among the first `n` of a room, with their silence.
pub open spec fn stalled_in(game: GameModel, now: u64, n: nat) -> Seq<(u64, u64)>
    decreases n,
{
    if n == 0 {
        Seq::empty()
    } else {
        let slot = n - 1;
        let before = stalled_in(game, now, slot as nat);
        if is_stalled(game, slot, now) {
            before.push((game.players[slot].addr, silence(game, slot, now)->0 as u64))
        } else {
            before
        }
    }
}

/// The players among the first `n` of a room who are gone.
pub open spec fn dead_in(game: GameModel, now: u64, n: nat) -> Seq<u64>
    decreases n,
{
    if n == 0 {
        Seq::empty()
    } else {
        let slot = n - 1;
        let before = dead_in(game, now, slot as nat);
        if is_dead(game, slot, now) {
            before.push(game.players[slot].addr)
        } else {
            before
        }
    }
}

/// The stalled players of these rooms.
pub open spec fn stalled_players(m: ServerModel, ids: Seq<u32>, now: u64) -> Seq<(u64, u64)>
    decreases ids.len(),
{
    if ids.len() == 0 {
        Seq::empty()
    } else {
        let game = m.games[ids.last()];
        stalled_players(m, ids.drop_last(), now) + stalled_in(game, now, game.players.len())
    }
}

/// The players of these rooms who are gone.
pub open spec fn dead_players(m: ServerModel, ids: Seq<u32>, now: u64) -> Seq<u64>
    decreases ids.len(),
{
    if ids.len() == 0 {
        Seq::empty()
    } else {
        let game = m.games[ids.last()];
        dead_players(m, ids.drop_last(), now) + dead_in(game, now, game.players.len())
    }
}

/// Adds the players of a room who are stalled, and those who are gone.
fn check_room(
    game: &GameInfo,
    now: u64,
    stalled: &mut Vec<(u64, u64)>,
    dead: &mut Vec<u64>,
)
    requires
        game@.wf(),
    ensures
        final(stalled)@ == old(stalled)@ + stalled_in(game@, now, game@.players.len()),
        final(dead)@ == old(dead)@ + dead_in(game@, now, game@.players.len()),
{
    let ghost room = game@;
    let mut slot: usize = 0;
    assert(stalled@ =~= old(stalled)@ + stalled_in(room, now, 0));
    assert(dead@ =~= old(dead)@ + dead_in(room, now, 0));
    while slot < game.players.len()
        invariant
            slot <= game.players@.len(),
            room == game@,
            room.wf(),
            stalled@ == old(stalled)@ + stalled_in(room, now, slot as nat),
            dead@ == old(dead)@ + dead_in(room, now, slot as nat),
        decreases game.players.len() - slot,
    {
        let player: &GamePlayerInfo = &game.players[slot];
        assert(room.players[slot as int] == player@);
        let dropped: bool = match &game.sync_manager {
            Some(sync) => sync.is_player_dropped(slot),
            None => false,
        };
        if game.game_status == GAME_STATUS_PLAYING && !dropped {
            if let Some(last) = player.last_game_data_recv {
                let stalled_for: u64 = if now > last {
                    now - last
                } else {
                    0
                };
                let threshold: u64 = match player.input_stall_grace {
                    Some(grace) => grace,
                    None => STALL_THRESHOLD,
                };
                if stalled_for >= PLAYING_INPUT_TIMEOUT {
                    dead.push(player.addr);
                } else if stalled_for >= threshold {
                    stalled.push((player.addr, stalled_for));
                }
            }
        }
        slot += 1;
        assert(stalled@ =~= old(stalled)@ + stalled_in(room, now, slot as nat));
        assert(dead@ =~= old(dead)@ + dead_in(room, now, slot as nat));
    }
}

/// Finds the playing clients who are stalled and need a resend, each with its
/// silence, and those who are gone and need their session closed.
pub fn find_stalled(state: &AppState, now: u64) -> (found: (Vec<(u64, u64)>, Vec<u64>))
    requires
        state@.wf(),
    ensures
        exists|ids: Seq<u32>|
            #![trigger lists_keys(ids, state@.games)]
            lists_keys(ids, state@.games) && found.0@ == stalled_players(state@, ids, now)
                && found.1@ == dead_players(state@, ids, now),
{
    let ghost m = state@;
    let ids: Vec<u32> = state.all_game_ids();
    let mut stalled: Vec<(u64, u64)> = Vec::new();
    let mut dead: Vec<u64> = Vec::new();
    let mut i: usize = 0;
    assert(ids@.take(0) =~= Seq::empty());
    while i < ids.len()
        invariant
            i <= ids@.len(),
            m == state@,
            m.wf(),
            lists_keys(ids@, m.games),
            stalled@ == stalled_players(m, ids@.take(i as int), now),
            dead@ == dead_players(m, ids@.take(i as int), now),
        decreases ids.len() - i,
    {
        assert(ids@.to_set().contains(ids@[i as int]));
        assert(ids@.take(i + 1).drop_last() =~= ids@.take(i as int));
        assert(ids@.take(i + 1).last() == ids@[i as int]);
        if let Some(game) = state.get_game(ids[i]) {
            check_room(game, now, &mut stalled, &mut dead);
        }
        i += 1;
    }
    assert(ids@.take(i as int) =~= ids@);
    (stalled, dead)
}

/// The client at an address is in the middle of its login.
pub open spec fn login_pending(m: ServerModel, addr: u64) -> bool {
    m.client(addr) matches Some(client) && client.game_id is None && client.ack_count
        <= NUM_ACKS_FOR_SPEED_TEST
}

/// The addresses of all clients in the middle of their login, each once. Their
/// last datagram is to be resent: a client that missed it has nothing to answer.
pub fn pending_logins(state: &AppState) -> (addrs: Vec<u64>)
    ensures
        addrs@.no_duplicates(),
        forall|addr: u64| #[trigger] addrs@.contains(addr) <==> login_pending(state@, addr),
{
    let ghost m = state@;
    let all: Vec<u64> = state.get_all_client_addrs();
    let mut pending: Vec<u64> = Vec::new();
    let mut i: usize = 0;
    while i < all.len()
        invariant
            i <= all@.len(),
            m == state@,
            lists_keys(all@, m.by_addr),
            pending@.no_duplicates(),
            forall|addr: u64|
                #[trigger] pending@.contains(addr) <==> all@.take(i as int).contains(addr)
                    && login_pending(m, addr),
        decreases all.len() - i,
    {
        let addr: u64 = all[i];
        let ghost listed = pending@;
        proof {
            lemma_next_item(all@, i as int);
        }
        assert(!listed.contains(addr));
        let waiting: bool = match state.get_client(addr) {
            Some(client) => client.game_id.is_none() && client.ack_count
                <= NUM_ACKS_FOR_SPEED_TEST,
            None => false,
        };
        if waiting {
            pending.push(addr);
            proof {
                lemma_contains_push(listed, addr);
            }
        }
        i += 1;
    }
    assert forall|addr: u64| #[trigger] pending@.contains(addr) <==> login_pending(m, addr) by {
        assert(all@.take(i as int) =~= all@);
        assert(all@.to_set().contains(addr) == all@.contains(addr));
    }
    pending
}

} // verus!
