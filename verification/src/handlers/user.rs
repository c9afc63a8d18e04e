//! Logging in and out.

use vstd::prelude::*;
#[allow(unused_imports)]
use vstd::utf8::encode_utf8;
use crate::kaillera::message_types::{CONNECTION_REJECTED, SERVER_TO_CLIENT_ACK, USER_QUIT};
use crate::kaillera::protocol::ParsedMessage;
use crate::packet_util::{
    build_connection_rejected_packet, build_server_to_client_ack_packet, build_user_quit_packet,
};
#[allow(unused_imports)]
use crate::packet_util::{server_to_client_ack_body, user_message_body};
use crate::state::{AppState, ClientInfo, ServerError, CONN_TYPE_LAN, PLAYER_STATUS_IDLE};
#[allow(unused_imports)]
use crate::state::{found_addr, ClientModel, ServerModel};
use crate::text::text_bytes;
use crate::wire::{
    buffer_is_empty, buffer_len, buffer_of, read_string_bytes, take_u16_le, take_u8,
};
#[allow(unused_imports)]
use crate::wire::{after_string, first_string};
use super::game::handle_quit_game;
#[allow(unused_imports)]
use super::game::quit_game_outcome;
use super::room::truncate_bytes;
#[allow(unused_imports)]
use super::room::truncated;
use super::util::{broadcast_packet, emit, send_packet, Action};
#[allow(unused_imports)]
use super::util::{
    actions_view, actions_wf, done, to_all, to_one, yields, ActionModel, Outcome,
};

verus! {

/// A session that was heard of more recently than this is in use.
pub const SESSION_ALIVE_THRESHOLD_SECS: u64 = 30;

/// Longest username that is kept, in bytes.
pub const MAX_USERNAME: usize = 31;

/// What a random identifier shows of its kind: version 4, in the variant that
/// the version belongs to.
pub open spec fn is_random_id(id: u128) -> bool {
    &&& (id / 0x1000_0000_0000_0000_0000) % 16 == 4
    &&& (id / 0x4000_0000_0000_0000) % 4 == 2
}

/// `Uuid::new_v4`, as the number that `Uuid::as_u128` gives: a random identifier.
/// Only its version and variant bits are the same every time.
#[verifier::external_body]
fn new_session_id() -> (id: u128)
    ensures
        is_random_id(id),
{
    uuid::Uuid::new_v4().as_u128()
}

/// What a client sends to log in.
pub struct LoginRequest {
    pub username: Vec<u8>,
    pub emulator_name: Vec<u8>,
    pub conn_type: u8,
}

/// A login request as a mathematical value.
#[verifier::ext_equal]
pub struct LoginModel {
    pub username: Seq<u8>,
    pub emulator_name: Seq<u8>,
    pub conn_type: u8,
}

impl View for LoginRequest {
    type V = LoginModel;

    open spec fn view(&self) -> LoginModel {
        LoginModel {
            username: self.username@,
            emulator_name: self.emulator_name@,
            conn_type: self.conn_type,
        }
    }
}

/// The login request of a body: two strings and the connection type, which is 0
/// where it is missing.
pub open spec fn login_request(data: Seq<u8>) -> LoginModel {
    let rest = after_string(after_string(data));
    LoginModel {
        username: truncated(first_string(data), MAX_USERNAME as int),
        emulator_name: first_string(after_string(data)),
        conn_type: if rest.len() > 0 {
            rest[0]
        } else {
            0
        },
    }
}

/// The answer to a login that is refused. It is the first message to the address,
/// so it is numbered on its own.
pub open spec fn rejection(src: u64, reason: Seq<char>) -> ActionModel {
    ActionModel::SendAlone {
        to: src,
        message_type: CONNECTION_REJECTED,
        data: user_message_body(encode_utf8("server"@), 0, encode_utf8(reason)),
    }
}

/// A session is in use: it was heard of less than 30 seconds ago.
pub open spec fn is_alive(client: ClientModel, now_secs: u64) -> bool {
    now_secs - client.last_activity_secs < SESSION_ALIVE_THRESHOLD_SECS
}

/// A client that just logged in.
pub open spec fn new_client(
    request: LoginModel,
    user_id: u16,
    session_id: u128,
    now_secs: u64,
    now: u64,
) -> ClientModel {
    ClientModel {
        session_id,
        username: request.username,
        emulator_name: request.emulator_name,
        conn_type: request.conn_type,
        user_id,
        ping: 0,
        player_status: PLAYER_STATUS_IDLE,
        game_id: None,
        last_ping_time: Some(now),
        ack_count: 0,
        ping_total: 0,
        last_activity_secs: now_secs,
    }
}

/// Letting a client in: it gets a number and the first handshake message.
pub open spec fn admitted(
    m: ServerModel,
    src: u64,
    request: LoginModel,
    session_id: u128,
    now_secs: u64,
    now: u64,
) -> Outcome<()> {
    done(
        m.after_user_id().with_new_client(
            src,
            new_client(request, m.next_user_id, session_id, now_secs, now),
        ),
        seq![
            ActionModel::StartNumbering { addr: src },
            to_one(src, SERVER_TO_CLIENT_ACK, server_to_client_ack_body()),
        ],
    )
}

/// Evicting the session at an address, where there is one: the others are told,
/// and the session is torn down.
pub open spec fn evicted_outcome(m: ServerModel, evicted: Option<u64>) -> Outcome<()> {
    match evicted {
        None => done(m, Seq::empty()),
        Some(addr) => {
            let after = m.without_client(addr);
            match m.client(addr) {
                Some(client) => done(
                    after,
                    seq![
                        to_all(
                            after,
                            USER_QUIT,
                            user_message_body(
                                client.username,
                                client.user_id,
                                encode_utf8("reconnected"@),
                            ),
                        ),
                        ActionModel::CloseSession { addr },
                    ],
                ),
                None => done(after, Seq::empty()),
            }
        },
    }
}

/// The game of a stale session at an address is left before the session goes.
pub open spec fn stale_left(m: ServerModel, addr: u64) -> Outcome<()> {
    match m.client(addr) {
        Some(client) => if client.game_id is Some {
            quit_game_outcome(m, addr)
        } else {
            done(m, Seq::empty())
        },
        None => done(m, Seq::empty()),
    }
}

/// Logging in. Only LAN clients are let in. A username that is in use is refused;
/// where `found` is the address of a stale session with the name, it leaves its
/// room, and the session at `evicted` makes way.
pub open spec fn login_outcome(
    m: ServerModel,
    src: u64,
    request: LoginModel,
    now_secs: u64,
    now: u64,
    found: Option<u64>,
    evicted: Option<u64>,
    session_id: u128,
) -> Outcome<()> {
    if request.conn_type != CONN_TYPE_LAN {
        done(m, seq![rejection(src, "Only LAN connection type is allowed."@)])
    } else {
        match found {
            None => admitted(m, src, request, session_id, now_secs, now),
            Some(addr) => if is_alive(m.client(addr)->0, now_secs) {
                done(m, seq![rejection(src, "Username is already in use."@)])
            } else {
                let left = stale_left(m, addr);
                let gone = evicted_outcome(left.state, evicted);
                let entered = admitted(gone.state, src, request, session_id, now_secs, now);
                done(entered.state, left.actions + gone.actions + entered.actions)
            },
        }
    }
}

/// What the maps gave for `found` and `evicted`, and the random identifier, can
/// come up in a login.
pub open spec fn login_possible(
    m: ServerModel,
    username: Seq<u8>,
    found: Option<u64>,
    evicted: Option<u64>,
) -> bool {
    &&& m.username_found(username, found)
    &&& found matches Some(addr) ==> stale_left(m, addr).state.username_found(username, evicted)
}

/// Reads a login request.
pub fn read_login_request(data: &[u8]) -> (request: LoginRequest)
    ensures
        request@ == login_request(data@),
{
    let mut buf = buffer_of(data);
    let username: Vec<u8> = read_string_bytes(&mut buf);
    let emulator_name: Vec<u8> = read_string_bytes(&mut buf);
    let conn_type: u8 = if !buffer_is_empty(&buf) {
        take_u8(&mut buf)
    } else {
        0
    };
    LoginRequest { username: truncate_bytes(username, MAX_USERNAME), emulator_name, conn_type }
}

/// Refuses a login.
fn reject(src: u64, reason: &str, out: &mut Vec<Action>)
    ensures
        actions_view(final(out)@) == actions_view(old(out)@).push(rejection(src, reason@)),
        actions_wf(old(out)@) ==> actions_wf(final(out)@),
{
    let source: Vec<u8> = text_bytes("server");
    let text: Vec<u8> = text_bytes(reason);
    let data: Vec<u8> = build_connection_rejected_packet(source.as_slice(), 0, text.as_slice());
    emit(out, Action::SendAlone { to: src, message_type: CONNECTION_REJECTED, data });
}

/// Lets a client in under this session identifier.
pub fn let_in(
    src: u64,
    request: LoginRequest,
    session_id: u128,
    now_secs: u64,
    now: u64,
    state: &mut AppState,
    out: &mut Vec<Action>,
)
    requires
        old(state)@.wf(),
        request.conn_type == CONN_TYPE_LAN,
    ensures
        final(state)@.wf(),
        yields(
            admitted(old(state)@, src, request@, session_id, now_secs, now),
            final(state)@,
            old(out)@,
            final(out)@,
            Ok::<(), ServerError>(()),
        ),
{
    let ghost m = state@;
    let ghost before = actions_view(out@);
    let ghost outcome = admitted(m, src, request@, session_id, now_secs, now);
    let user_id: u16 = state.next_user_id();
    let client = ClientInfo {
        session_id,
        username: request.username,
        emulator_name: request.emulator_name,
        conn_type: request.conn_type,
        user_id,
        ping: 0,
        player_status: PLAYER_STATUS_IDLE,
        game_id: None,
        last_ping_time: Some(now),
        ack_count: 0,
        ping_total: 0,
        last_activity_secs: now_secs,
    };
    state.add_client(src, client);
    emit(out, Action::StartNumbering { addr: src });
    send_packet(out, src, SERVER_TO_CLIENT_ACK, build_server_to_client_ack_packet());
    assert(actions_view(out@) =~= before + outcome.actions);
}

/// Evicts a session with this username, if one is found.
fn evict(username: &[u8], state: &mut AppState, out: &mut Vec<Action>) -> (evicted: Option<u64>)
    requires
        old(state)@.wf(),
    ensures
        final(state)@.wf(),
        old(state)@.username_found(username@, evicted),
        yields(
            evicted_outcome(old(state)@, evicted),
            final(state)@,
            old(out)@,
            final(out)@,
            Ok::<(), ServerError>(()),
        ),
{
    let ghost m = state@;
    let ghost before = actions_view(out@);
    assert(before + Seq::empty() =~= before);
    match state.remove_client_by_username(username) {
        Some((addr, client)) => {
            let reason: Vec<u8> = text_bytes("reconnected");
            let quit_data: Vec<u8> = build_user_quit_packet(
                client.username.as_slice(),
                client.user_id,
                reason.as_slice(),
            );
            broadcast_packet(state, out, USER_QUIT, quit_data);
            emit(out, Action::CloseSession { addr });
            assert(actions_view(out@) =~= before + evicted_outcome(m, Some(addr)).actions);
            Some(addr)
        },
        None => None,
    }
}

/// Handles a login.
pub fn handle_user_login(
    message: ParsedMessage,
    src: u64,
    now_secs: u64,
    now: u64,
    state: &mut AppState,
    out: &mut Vec<Action>,
) -> (result: Result<(), ServerError>)
    requires
        old(state)@.wf(),
    ensures
        final(state)@.wf(),
        exists|found: Option<u64>, evicted: Option<u64>, session_id: u128|
            #![trigger login_outcome(old(state)@, src, login_request(message.data@), now_secs, now, found, evicted, session_id)]
            {
                &&& login_possible(
                    old(state)@,
                    login_request(message.data@).username,
                    found,
                    evicted,
                )
                &&& is_random_id(session_id)
                &&& yields(
                    login_outcome(
                        old(state)@,
                        src,
                        login_request(message.data@),
                        now_secs,
                        now,
                        found,
                        evicted,
                        session_id,
                    ),
                    final(state)@,
                    old(out)@,
                    final(out)@,
                    result,
                )
            },
{
    let ghost m = state@;
    let ghost before = actions_view(out@);
    assert(before + Seq::empty() =~= before);
    let request: LoginRequest = read_login_request(message.data.as_slice());
    let ghost model = request@;
    let session_id: u128 = new_session_id();
    let found: Option<(u64, ClientInfo)> = state.find_client_by_username(
        request.username.as_slice(),
    );
    let ghost found_at = found_addr(found);
    if request.conn_type != CONN_TYPE_LAN {
        reject(src, "Only LAN connection type is allowed.", out);
        proof {
            let evicted = some_evicted(m, model.username, found_at);
            assert(yields(
                login_outcome(m, src, model, now_secs, now, found_at, evicted, session_id),
                state@,
                old(out)@,
                out@,
                Ok::<(), ServerError>(()),
            )) by {
                assert(actions_view(out@) =~= before + seq![
                    rejection(src, "Only LAN connection type is allowed."@),
                ]);
            }
        }
        return Ok(());
    }
    let mut evicted: Option<u64> = None;
    if let Some((old_addr, old_client)) = found {
        assert(found_at == Some(old_addr));
        let idle: u64 = if now_secs > old_client.last_activity_secs {
            now_secs - old_client.last_activity_secs
        } else {
            0
        };
        if idle < SESSION_ALIVE_THRESHOLD_SECS {
            reject(src, "Username is already in use.", out);
            proof {
                let evicted = some_evicted(m, model.username, found_at);
                assert(yields(
                    login_outcome(m, src, model, now_secs, now, found_at, evicted, session_id),
                    state@,
                    old(out)@,
                    out@,
                    Ok::<(), ServerError>(()),
                )) by {
                    assert(actions_view(out@) =~= before + seq![
                        rejection(src, "Username is already in use."@),
                    ]);
                }
            }
            return Ok(());
        }
        // Leave the game of the stale session while it is still known, so that no
        // room without live members stays behind.
        if old_client.game_id.is_some() {
            let _ = handle_quit_game(Vec::new(), old_addr, state, out);
        }
        assert(state@ == stale_left(m, old_addr).state);
        assert(actions_view(out@) =~= before + stale_left(m, old_addr).actions);
        evicted = evict(request.username.as_slice(), state, out);
    }
    let_in(src, request, session_id, now_secs, now, state, out);
    proof {
        let outcome = login_outcome(m, src, model, now_secs, now, found_at, evicted, session_id);
        assert(actions_view(out@) =~= before + outcome.actions);
        assert(yields(outcome, state@, old(out)@, out@, Ok::<(), ServerError>(())));
        assert(login_possible(m, model.username, found_at, evicted));
    }
    Ok(())
}

/// Some session that could make way, whichever was found.
proof fn some_evicted(m: ServerModel, username: Seq<u8>, found: Option<u64>) -> (evicted: Option<
    u64,
>)
    requires
        m.username_found(username, found),
    ensures
        login_possible(m, username, found, evicted),
{
    match found {
        None => None,
        Some(addr) => {
            let left = stale_left(m, addr).state;
            if exists|id: u128| #[trigger] left.named(id, username) && left.by_addr.values().contains(
                id,
            ) {
                let id = choose|id: u128| #[trigger] left.named(id, username)
                    && left.by_addr.values().contains(id);
                let at = choose|at: u64| left.by_addr.dom().contains(at) && #[trigger] left.by_addr[at]
                    == id;
                Some(at)
            } else {
                None
            }
        },
    }
}

/// The farewell of a body: the string after a string and two bytes, which may be
/// missing.
pub open spec fn quit_message(data: Seq<u8>) -> Seq<u8> {
    let rest = after_string(data);
    first_string(
        if rest.len() >= 2 {
            rest.skip(2)
        } else {
            rest
        },
    )
}

/// Removing the client at an address, where there is one: the others are told.
pub open spec fn departed(m: ServerModel, addr: u64, message: Seq<u8>) -> Outcome<()> {
    let after = m.without_client(addr);
    match m.client(addr) {
        Some(client) => done(
            after,
            seq![
                to_all(
                    after,
                    USER_QUIT,
                    user_message_body(client.username, client.user_id, message),
                ),
            ],
        ),
        None => done(after, Seq::empty()),
    }
}

/// Logging out: the client leaves its room, the others are told, and its session
/// is torn down.
pub open spec fn user_quit_outcome(m: ServerModel, src: u64, data: Seq<u8>) -> Outcome<()> {
    let left = quit_game_outcome(m, src);
    let gone = departed(left.state, src, quit_message(data));
    done(
        gone.state,
        left.actions + gone.actions + seq![ActionModel::CloseSession { addr: src }],
    )
}

/// Reads the farewell of a body.
fn read_quit_message(data: &[u8]) -> (message: Vec<u8>)
    ensures
        message@ == quit_message(data@),
{
    let mut buf = buffer_of(data);
    let _empty: Vec<u8> = read_string_bytes(&mut buf);
    if buffer_len(&buf) >= 2 {
        let _code: u16 = take_u16_le(&mut buf);
    }
    read_string_bytes(&mut buf)
}

/// Removes the client at an address and tells the others.
pub fn depart(addr: u64, message: &[u8], state: &mut AppState, out: &mut Vec<Action>)
    requires
        old(state)@.wf(),
    ensures
        final(state)@.wf(),
        yields(
            departed(old(state)@, addr, message@),
            final(state)@,
            old(out)@,
            final(out)@,
            Ok::<(), ServerError>(()),
        ),
{
    let ghost m = state@;
    let ghost before = actions_view(out@);
    if let Some(client) = state.remove_client(addr) {
        let data: Vec<u8> = build_user_quit_packet(
            client.username.as_slice(),
            client.user_id,
            message,
        );
        broadcast_packet(state, out, USER_QUIT, data);
    }
    assert(actions_view(out@) =~= before + departed(m, addr, message@).actions);
}

/// Handles a logout.
pub fn handle_user_quit(
    message: ParsedMessage,
    src: u64,
    state: &mut AppState,
    out: &mut Vec<Action>,
) -> (result: Result<(), ServerError>)
    requires
        old(state)@.wf(),
    ensures
        final(state)@.wf(),
        yields(
            user_quit_outcome(old(state)@, src, message.data@),
            final(state)@,
            old(out)@,
            final(out)@,
            result,
        ),
{
    let ghost m = state@;
    let ghost before = actions_view(out@);
    let user_message: Vec<u8> = read_quit_message(message.data.as_slice());
    match handle_quit_game(Vec::new(), src, state, out) {
        Ok(_) => {},
        Err(error) => {
            return Err(error);
        },
    }
    depart(src, user_message.as_slice(), state, out);
    emit(out, Action::CloseSession { addr: src });
    assert(actions_view(out@) =~= before + user_quit_outcome(m, src, message.data@).actions);
    Ok(())
}

} // verus!
