//! How clients come and go, what they say to each other, and which request does what.

use vstd::prelude::*;
#[allow(unused_imports)]
use vstd::utf8::encode_utf8;
#[allow(unused_imports)]
use crate::kaillera::protocol::MessageModel;
#[allow(unused_imports)]
use crate::packet_laws::{law_last_string_needs_no_end, plain};
#[allow(unused_imports)]
use crate::packet_util::{chat_body, server_to_client_ack_body, user_message_body};
#[allow(unused_imports)]
use crate::state::{ClientModel, ServerModel};
#[allow(unused_imports)]
use crate::wire::{after_string, first_string, law_string_is_read_back, terminated};
#[allow(unused_imports)]
use super::chat::{game_chat_outcome, global_chat_outcome};
#[allow(unused_imports)]
use super::game::{
    create_game_outcome, drop_game_outcome, join_game_outcome, kick_outcome, kick_target,
    quit_game_outcome, start_game_outcome,
};
#[allow(unused_imports)]
use super::room_laws::{addrs_of, lemma_addrs_of};
#[allow(unused_imports)]
use super::sync::{game_cache_outcome, game_data_outcome, ready_outcome};
#[allow(unused_imports)]
use super::user::{
    login_outcome, login_possible, login_request, quit_message, user_quit_outcome, LoginModel,
};
#[allow(unused_imports)]
use super::util::{line_len, lines_of, ActionModel, Outcome};
#[allow(unused_imports)]
use super::{ack_outcome, measured, possible_outcome};

verus! {

/// A login names the user, cut to 31 bytes, the emulator and the connection type.
pub proof fn law_login_request_is_read(
    name: Seq<u8>,
    emulator: Seq<u8>,
    conn_type: u8,
    tail: Seq<u8>,
)
    requires
        plain(name),
        plain(emulator),
    ensures
        login_request(terminated(name) + terminated(emulator) + seq![conn_type] + tail) == (
        LoginModel {
            username: if name.len() <= 31 {
                name
            } else {
                name.take(31)
            },
            emulator_name: emulator,
            conn_type,
        }),
{
    let rest = seq![conn_type] + tail;
    let data = terminated(name) + terminated(emulator) + seq![conn_type] + tail;
    assert(data =~= terminated(name) + (terminated(emulator) + rest));
    law_string_is_read_back(name, terminated(emulator) + rest);
    law_string_is_read_back(emulator, rest);
}

/// A client who just logged in: under the name it asked for, with a number, without a
/// ping, idle, in no room, and with the first handshake message under way.
pub open spec fn fresh(
    client: ClientModel,
    request: LoginModel,
    user_id: u16,
    session_id: u128,
    now_secs: u64,
    now: u64,
) -> bool {
    client == ClientModel {
        session_id,
        username: request.username,
        emulator_name: request.emulator_name,
        conn_type: request.conn_type,
        user_id,
        ping: 0,
        player_status: 1,
        game_id: None,
        last_ping_time: Some(now),
        ack_count: 0,
        ping_total: 0,
        last_activity_secs: now_secs,
    }
}

/// `after` is `before` with one more client at `src`, who has the next user number.
pub open spec fn one_more(
    before: ServerModel,
    after: ServerModel,
    src: u64,
    request: LoginModel,
    session_id: u128,
    now_secs: u64,
    now: u64,
) -> bool {
    &&& after == (ServerModel {
        by_id: before.by_id.insert(session_id, after.by_id[session_id]),
        by_addr: before.by_addr.insert(src, session_id),
        next_user_id: ((before.next_user_id + 1) % 65536) as u16,
        ..before
    })
    &&& fresh(
        after.by_id[session_id],
        request,
        before.next_user_id,
        session_id,
        now_secs,
        now,
    )
}

/// What a client who gets in is sent: its messages are numbered from 0, and the first
/// is the handshake message.
pub open spec fn greeting(src: u64) -> Seq<ActionModel> {
    seq![
        ActionModel::StartNumbering { addr: src },
        ActionModel::Send {
            to: set![src],
            message_type: 5,
            data: server_to_client_ack_body(),
        },
    ]
}

/// What a client who does not get in is sent.
pub open spec fn refusal(src: u64, reason: Seq<char>) -> Seq<ActionModel> {
    seq![
        ActionModel::SendAlone {
            to: src,
            message_type: 22,
            data: user_message_body(encode_utf8("server"@), 0, encode_utf8(reason)),
        },
    ]
}

/// A login from a LAN under a name that nobody has adds one client and changes nothing
/// else.
pub proof fn law_login_adds_one_client(
    m: ServerModel,
    src: u64,
    request: LoginModel,
    now_secs: u64,
    now: u64,
    evicted: Option<u64>,
    session_id: u128,
)
    requires
        request.conn_type == 1,
    ensures
        ({
            let outcome = login_outcome(
                m,
                src,
                request,
                now_secs,
                now,
                None,
                evicted,
                session_id,
            );
            &&& outcome.result is Ok
            &&& one_more(m, outcome.state, src, request, session_id, now_secs, now)
            &&& outcome.actions == greeting(src)
        }),
{
}

/// Any other connection type is refused, and so is a name whose holder was heard of
/// less than 30 seconds ago. A refusal changes nothing, and only the one who asked
/// hears of it.
pub proof fn law_login_is_refused(
    m: ServerModel,
    src: u64,
    request: LoginModel,
    now_secs: u64,
    now: u64,
    found: Option<u64>,
    evicted: Option<u64>,
    session_id: u128,
)
    ensures
        ({
            let outcome = login_outcome(
                m,
                src,
                request,
                now_secs,
                now,
                found,
                evicted,
                session_id,
            );
            &&& request.conn_type != 1 ==> {
                &&& outcome.state == m
                &&& outcome.actions == refusal(src, "Only LAN connection type is allowed."@)
            }
            &&& request.conn_type == 1 && (found matches Some(addr) && now_secs - (m.client(
                addr,
            )->0).last_activity_secs < 30) ==> {
                &&& outcome.state == m
                &&& outcome.actions == refusal(src, "Username is already in use."@)
            }
        }),
{
}

/// A name whose holder was not heard of for 30 seconds goes to who asks for it. First
/// the holder leaves its room, as if it had asked to; then its session ends, everybody
/// else hearing that it reconnected; then the new client is added.
pub proof fn law_login_takes_over_a_stale_name(
    m: ServerModel,
    src: u64,
    request: LoginModel,
    now_secs: u64,
    now: u64,
    holder: u64,
    session_id: u128,
)
    requires
        request.conn_type == 1,
        m.client(holder) matches Some(client) && now_secs - client.last_activity_secs >= 30,
        quit_game_outcome(m, holder).state.client(holder) is Some,
    ensures
        ({
            let outcome = login_outcome(
                m,
                src,
                request,
                now_secs,
                now,
                Some(holder),
                Some(holder),
                session_id,
            );
            let left = quit_game_outcome(m, holder);
            let client = left.state.client(holder)->0;
            let gone = ServerModel {
                by_id: left.state.by_id.remove(left.state.by_addr[holder]),
                by_addr: left.state.by_addr.remove(holder),
                ..left.state
            };
            &&& outcome.result is Ok
            &&& one_more(gone, outcome.state, src, request, session_id, now_secs, now)
            &&& outcome.actions == left.actions + seq![
                ActionModel::Send {
                    to: gone.by_addr.dom(),
                    message_type: 1,
                    data: user_message_body(
                        client.username,
                        client.user_id,
                        encode_utf8("reconnected"@),
                    ),
                },
                ActionModel::CloseSession { addr: holder },
            ] + greeting(src)
        }),
{
    let outcome = login_outcome(
        m,
        src,
        request,
        now_secs,
        now,
        Some(holder),
        Some(holder),
        session_id,
    );
    let left = quit_game_outcome(m, holder);
    let client = left.state.client(holder)->0;
    assert(outcome.actions =~= left.actions + seq![
        ActionModel::Send {
            to: left.state.by_addr.remove(holder).dom(),
            message_type: 1,
            data: user_message_body(
                client.username,
                client.user_id,
                encode_utf8("reconnected"@),
            ),
        },
        ActionModel::CloseSession { addr: holder },
    ] + greeting(src));
}

/// Logging out leaves the room, ends the session, and tells everybody else with the
/// parting words.
pub proof fn law_logging_out(
    m: ServerModel,
    src: u64,
    text: Seq<u8>,
    filler: Seq<u8>,
    words: Seq<u8>,
    tail: Seq<u8>,
)
    requires
        plain(text),
        filler.len() == 2,
        plain(words),
        m.client(src) is Some,
        quit_game_outcome(m, src).state.client(src) is Some,
    ensures
        ({
            let data = terminated(text) + filler + terminated(words) + tail;
            let outcome = user_quit_outcome(m, src, data);
            let left = quit_game_outcome(m, src);
            let client = left.state.client(src)->0;
            &&& outcome.result is Ok
            &&& outcome.state == (ServerModel {
                by_id: left.state.by_id.remove(left.state.by_addr[src]),
                by_addr: left.state.by_addr.remove(src),
                ..left.state
            })
            &&& outcome.actions == left.actions + seq![
                ActionModel::Send {
                    to: left.state.by_addr.dom().remove(src),
                    message_type: 1,
                    data: user_message_body(client.username, client.user_id, words),
                },
                ActionModel::CloseSession { addr: src },
            ]
        }),
{
    let data = terminated(text) + filler + terminated(words) + tail;
    let rest = filler + (terminated(words) + tail);
    assert(data =~= terminated(text) + rest);
    law_string_is_read_back(text, rest);
    assert(rest.skip(2) =~= terminated(words) + tail);
    law_string_is_read_back(words, tail);
    let left = quit_game_outcome(m, src);
    let client = left.state.client(src)->0;
    assert(left.state.by_addr.remove(src).dom() =~= left.state.by_addr.dom().remove(src));
    assert(user_quit_outcome(m, src, data).actions =~= left.actions + seq![
        ActionModel::Send {
            to: left.state.by_addr.dom().remove(src),
            message_type: 1,
            data: user_message_body(client.username, client.user_id, words),
        },
        ActionModel::CloseSession { addr: src },
    ]);
}

/// The ping is the mean of the round trips so far, to the nearest millisecond: each
/// acknowledgement counts once, with the time since the handshake message was sent.
pub proof fn law_ping_is_the_mean_round_trip(client: ClientModel, now: u64)
    requires
        client.last_ping_time is Some,
        client.ack_count < u16::MAX,
        client.ping_total <= client.ack_count * u64::MAX,
    ensures
        ({
            let after = measured(client, now);
            let sent = client.last_ping_time->0;
            let trip = if now > sent {
                now - sent
            } else {
                0
            };
            let mean = (client.ping_total + trip) / (client.ack_count + 1);
            &&& after == (ClientModel {
                ping: after.ping,
                ack_count: (client.ack_count + 1) as u16,
                ping_total: (client.ping_total + trip) as u128,
                ..client
            })
            &&& after.ping < u32::MAX ==> 1_000_000 * after.ping <= mean + 500_000 < 1_000_000 * (
            after.ping + 1)
            &&& after.ping == u32::MAX ==> mean + 500_000 >= 1_000_000 * u32::MAX
        }),
{
    let count = client.ack_count as int;
    assert(client.ping_total + u64::MAX <= u128::MAX) by (nonlinear_arith)
        requires
            client.ping_total <= count * u64::MAX,
            0 <= count < 65535,
    ;
    let sent = client.last_ping_time->0;
    let trip = if now > sent {
        now - sent
    } else {
        0
    };
    let mean = (client.ping_total + trip) / (client.ack_count + 1);
    assert(mean >= 0) by (nonlinear_arith)
        requires
            mean == (client.ping_total + trip) / (client.ack_count + 1),
            trip >= 0,
    ;
}

/// Until the third acknowledgement, each is answered with the next handshake message
/// alone. Nothing but the client's own count and times changes.
pub proof fn law_handshake_counts_up(m: ServerModel, src: u64, now: u64, snapshot: Seq<u8>)
    requires
        m.client(src) matches Some(client) && client.last_ping_time is Some && client.ack_count
            < 3,
    ensures
        ({
            let before = m.client(src)->0;
            let outcome = ack_outcome(m, src, now, snapshot);
            let client = outcome.state.by_id[m.by_addr[src]];
            &&& outcome.result is Ok
            &&& outcome.state == (ServerModel {
                by_id: m.by_id.insert(m.by_addr[src], client),
                ..m
            })
            &&& client == (ClientModel {
                ping: client.ping,
                ack_count: (before.ack_count + 1) as u16,
                ping_total: client.ping_total,
                last_ping_time: Some(now),
                ..before
            })
            &&& outcome.actions == seq![
                ActionModel::Send {
                    to: set![src],
                    message_type: 5,
                    data: server_to_client_ack_body(),
                },
            ]
        }),
{
}

/// Who completes the handshake is welcomed with the lines of the welcome message, one
/// message each, from the server.
pub proof fn law_welcome_is_sent_line_by_line(
    m: ServerModel,
    src: u64,
    now: u64,
    snapshot: Seq<u8>,
)
    requires
        m.client(src) matches Some(client) && client.last_ping_time is Some && 3
            <= client.ack_count < u16::MAX,
    ensures
        ({
            let outcome = ack_outcome(m, src, now, snapshot);
            let lines = lines_of(encode_utf8(m.config.welcome_message@));
            outcome.actions.skip(2) == Seq::new(
                lines.len(),
                |i: int|
                    ActionModel::Send {
                        to: set![src],
                        message_type: 23,
                        data: chat_body(encode_utf8("Server"@), lines[i]),
                    },
            )
        }),
{
    let outcome = ack_outcome(m, src, now, snapshot);
    let lines = lines_of(encode_utf8(m.config.welcome_message@));
    assert(outcome.actions.skip(2) =~= Seq::new(
        lines.len(),
        |i: int|
            ActionModel::Send {
                to: set![src],
                message_type: 23,
                data: chat_body(encode_utf8("Server"@), lines[i]),
            },
    ));
}

/// A line without line feed ends where it ends.
proof fn lemma_line_len(line: Seq<u8>, rest: Seq<u8>)
    requires
        forall|i: int| 0 <= i < line.len() ==> line[i] != 10,
        rest.len() == 0 || rest[0] == 10,
    ensures
        line_len(line + rest) == line.len(),
    decreases line.len(),
{
    if line.len() > 0 {
        assert((line + rest)[0] == line[0]);
        assert((line + rest).skip(1) =~= line.skip(1) + rest);
        lemma_line_len(line.skip(1), rest);
    } else {
        assert(line + rest =~= rest);
    }
}

/// A text is split at its line feeds, in order: a line feed ends a line and is not
/// part of it, nor is a carriage return right before it. What follows the last line
/// feed is a line of its own, if there is anything.
pub proof fn law_text_is_split_at_line_feeds(line: Seq<u8>, rest: Seq<u8>)
    requires
        forall|i: int| 0 <= i < line.len() ==> line[i] != 10,
    ensures
        lines_of(line + seq![10u8] + rest) == seq![
            if line.len() > 0 && line.last() == 13 {
                line.drop_last()
            } else {
                line
            },
        ] + lines_of(rest),
        lines_of(line) == if line.len() > 0 {
            seq![line]
        } else {
            Seq::empty()
        },
{
    let text = line + seq![10u8] + rest;
    assert(text =~= line + (seq![10u8] + rest));
    lemma_line_len(line, seq![10u8] + rest);
    assert(text.take(line.len() as int) =~= line);
    assert(text.skip(line.len() as int + 1) =~= rest);
    assert(line + Seq::empty() =~= line);
    lemma_line_len(line, Seq::empty());
}

/// A chat line in the lobby goes to everybody who is logged in, under its sender's
/// name, and changes nothing.
pub proof fn law_lobby_chat_reaches_everybody(
    m: ServerModel,
    src: u64,
    text: Seq<u8>,
    words: Seq<u8>,
    tail: Seq<u8>,
)
    requires
        plain(text),
        plain(words),
        m.client(src) is Some,
    ensures
        ({
            let outcome = global_chat_outcome(
                m,
                src,
                terminated(text) + terminated(words) + tail,
            );
            &&& outcome.result is Ok
            &&& outcome.state == m
            &&& outcome.actions == seq![
                ActionModel::Send {
                    to: m.by_addr.dom(),
                    message_type: 7,
                    data: chat_body((m.client(src)->0).username, words),
                },
            ]
        }),
{
    let data = terminated(text) + terminated(words) + tail;
    assert(data =~= terminated(text) + (terminated(words) + tail));
    law_string_is_read_back(text, terminated(words) + tail);
    law_string_is_read_back(words, tail);
}

/// A chat line in a room goes to everybody on its list, under its sender's name, if
/// the sender is on it and the line holds no byte 0x11; otherwise nobody hears of it.
/// It changes nothing.
pub proof fn law_room_chat_reaches_the_room(
    m: ServerModel,
    src: u64,
    game_id: u32,
    text: Seq<u8>,
    words: Seq<u8>,
    tail: Seq<u8>,
)
    requires
        plain(text),
        plain(words),
        m.client(src) matches Some(client) && client.game_id == Some(game_id),
        m.game(game_id) is Some,
    ensures
        ({
            let players = m.games[game_id].players;
            let outcome = game_chat_outcome(m, src, terminated(text) + terminated(words) + tail);
            &&& outcome.result is Ok
            &&& outcome.state == m
            &&& outcome.actions == if words.contains(17u8) || forall|i: int|
                0 <= i < players.len() ==> (#[trigger] players[i]).addr != src {
                Seq::<ActionModel>::empty()
            } else {
                seq![
                    ActionModel::Send {
                        to: addrs_of(players),
                        message_type: 8,
                        data: chat_body((m.client(src)->0).username, words),
                    },
                ]
            }
        }),
{
    let data = terminated(text) + terminated(words) + tail;
    assert(data =~= terminated(text) + (terminated(words) + tail));
    law_string_is_read_back(text, terminated(words) + tail);
    law_string_is_read_back(words, tail);
    lemma_addrs_of(m.games[game_id].players);
}

/// Which request does what goes by its type alone.
pub proof fn law_requests_go_by_their_type(
    m: ServerModel,
    src: u64,
    message: MessageModel,
    now_secs: u64,
    now: u64,
    outcome: Outcome<()>,
)
    requires
        possible_outcome(m, src, message, now_secs, now, outcome),
    ensures
        message.message_type == 1 ==> outcome == user_quit_outcome(m, src, message.data),
        message.message_type == 7 ==> outcome == global_chat_outcome(m, src, message.data),
        message.message_type == 8 ==> outcome == game_chat_outcome(m, src, message.data),
        message.message_type == 10 ==> outcome == create_game_outcome(m, src, message.data),
        message.message_type == 11 ==> outcome == quit_game_outcome(m, src),
        message.message_type == 12 ==> outcome == join_game_outcome(m, src, message.data),
        message.message_type == 17 ==> outcome == start_game_outcome(m, src),
        message.message_type == 18 ==> outcome == game_data_outcome(m, src, message.data, now),
        message.message_type == 19 ==> outcome == game_cache_outcome(m, src, message.data, now),
        message.message_type == 20 ==> outcome == drop_game_outcome(m, src),
        message.message_type == 21 ==> outcome == ready_outcome(m, src),
        message.message_type == 3 ==> exists|
            found: Option<u64>,
            evicted: Option<u64>,
            session_id: u128,
        |
            outcome == #[trigger] login_outcome(
                m,
                src,
                login_request(message.data),
                now_secs,
                now,
                found,
                evicted,
                session_id,
            ),
        message.message_type == 6 ==> exists|snapshot: Seq<u8>|
            outcome == #[trigger] ack_outcome(m, src, now, snapshot),
        message.message_type == 15 ==> exists|found: Option<u64>|
            outcome == #[trigger] kick_outcome(m, src, found) && (found matches Some(target)
                ==> m.client(target) matches Some(kicked) && kicked.user_id == kick_target(
                message.data,
            )) && (found is None ==> forall|a: u64|
                (#[trigger] m.client(a)) matches Some(client) ==> client.user_id != kick_target(
                    message.data,
                )),
        message.message_type == 9 || message.message_type == 0 || message.message_type > 21
            ==> outcome.state == m && outcome.actions.len() == 0,
{
    if message.message_type == 15 {
        let found = choose|found: Option<u64>|
            #![trigger kick_outcome(m, src, found)]
            m.user_id_found(kick_target(message.data), found) && outcome == kick_outcome(
                m,
                src,
                found,
            );
        assert(outcome == kick_outcome(m, src, found));
        if found is None {
            assert forall|a: u64| (#[trigger] m.client(a)) is Some implies (m.client(a)->0).user_id
                != kick_target(message.data) by {
                assert(!m.is_user(a, kick_target(message.data)));
            }
        }
    }
}

/// An acknowledgement where no handshake message is under way counts as no round trip,
/// and one from who is not logged in fails.
pub proof fn law_acknowledgement_of_nothing(
    m: ServerModel,
    src: u64,
    client: ClientModel,
    now: u64,
    snapshot: Seq<u8>,
)
    ensures
        client.last_ping_time is None ==> measured(client, now) == client,
        m.client(src) is None ==> ack_outcome(m, src, now, snapshot).state == m && ack_outcome(
            m,
            src,
            now,
            snapshot,
        ).actions.len() == 0 && ack_outcome(m, src, now, snapshot).result is Err,
{
}

/// A name is found where a client logged in under it; and where every session has an
/// address, it is missed only if nobody logged in under it.
pub proof fn law_names_are_looked_up(
    m: ServerModel,
    username: Seq<u8>,
    found: Option<u64>,
    evicted: Option<u64>,
)
    requires
        login_possible(m, username, found, evicted),
    ensures
        found matches Some(addr) ==> (m.client(addr) matches Some(client) && client.username
            == username),
        found is None && (forall|id: u128| #[trigger]
            m.by_id.dom().contains(id) ==> exists|a: u64|
                m.by_addr.dom().contains(a) && #[trigger] m.by_addr[a] == id) ==> forall|id: u128|
            m.by_id.dom().contains(id) ==> (#[trigger] m.by_id[id]).username != username,
        found matches Some(addr) ==> (evicted matches Some(other) ==> (quit_game_outcome(
            m,
            addr,
        ).state.client(other) matches Some(client) && client.username == username)),
{
    if found is None && (forall|id: u128| #[trigger]
        m.by_id.dom().contains(id) ==> exists|a: u64|
            m.by_addr.dom().contains(a) && #[trigger] m.by_addr[a] == id) {
        assert forall|id: u128| m.by_id.dom().contains(id) implies (
        #[trigger] m.by_id[id]).username != username by {
            if m.named(id, username) {
                let other = choose|other: u128| #[trigger]
                    m.named(other, username) && !m.by_addr.values().contains(other);
                assert(m.by_id.dom().contains(other));
                let a = choose|a: u64|
                    m.by_addr.dom().contains(a) && #[trigger] m.by_addr[a] == other;
                assert(m.by_addr.values().contains(other));
            }
        }
    }
}

/// Logging out where nobody is logged in only tears the session down.
pub proof fn law_logging_out_a_stranger(m: ServerModel, src: u64, data: Seq<u8>)
    requires
        m.client(src) is None,
    ensures
        user_quit_outcome(m, src, data).actions == seq![ActionModel::CloseSession { addr: src }],
        user_quit_outcome(m, src, data).state.games == m.games,
        user_quit_outcome(m, src, data).result is Ok,
{
    assert(user_quit_outcome(m, src, data).actions =~= seq![
        ActionModel::CloseSession { addr: src },
    ]);
}

/// A chat line in the lobby from who is not logged in goes out under the name Unknown.
pub proof fn law_strangers_chat_as_unknown(m: ServerModel, src: u64, data: Seq<u8>)
    requires
        m.client(src) is None,
    ensures
        global_chat_outcome(m, src, data).state == m,
        global_chat_outcome(m, src, data).actions == seq![
            ActionModel::Send {
                to: m.by_addr.dom(),
                message_type: 7,
                data: chat_body(
                    encode_utf8("Unknown"@),
                    first_string(after_string(data)),
                ),
            },
        ],
{
}

/// A login without a connection type counts as one of type 0, which does not get in,
/// and parting words may come without the two bytes before them.
pub proof fn law_short_bodies_are_read(name: Seq<u8>, emulator: Seq<u8>, text: Seq<u8>, byte: u8)
    requires
        plain(name),
        plain(emulator),
        plain(text),
    ensures
        login_request(terminated(name) + terminated(emulator)).conn_type == 0,
        quit_message(terminated(text)) == Seq::<u8>::empty(),
        byte != 0 ==> quit_message(terminated(text) + seq![byte]) == seq![byte],
{
    let data = terminated(name) + terminated(emulator);
    assert(terminated(emulator) + Seq::empty() =~= terminated(emulator));
    law_string_is_read_back(name, terminated(emulator));
    law_string_is_read_back(emulator, Seq::empty());
    assert(terminated(text) + Seq::empty() =~= terminated(text));
    law_string_is_read_back(text, Seq::empty());
    law_last_string_needs_no_end(Seq::empty());
    law_string_is_read_back(text, seq![byte]);
    if byte != 0 {
        law_last_string_needs_no_end(seq![byte]);
    }
}

} // verus!
