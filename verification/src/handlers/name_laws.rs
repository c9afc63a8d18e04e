//! Who is logged in under which name: no two clients share one. And what no
//! request changes: the configuration.

use vstd::prelude::*;
#[allow(unused_imports)]
use crate::kaillera::message_types::{CLIENT_TO_SERVER_ACK, KICK_USER, USER_LOGIN, USER_QUIT};
#[allow(unused_imports)]
use crate::kaillera::protocol::MessageModel;
#[allow(unused_imports)]
use crate::state::{
    ClientModel, GameModel, PlayerModel, ServerModel, CONN_TYPE_LAN, PLAYER_STATUS_IDLE,
    PLAYER_STATUS_NET_SYNC, PLAYER_STATUS_PLAYING,
};
#[allow(unused_imports)]
use super::game::{
    back_in_lobby, create_game_outcome, drop_outcome, ended_game, join_game_outcome, kick_outcome,
    kick_target, live_room_left, quit_game_outcome, start_game_outcome, started_game, tombstoned,
};
#[allow(unused_imports)]
use super::membership_laws::own_sessions;
#[allow(unused_imports)]
use super::room::{mark_players, present, with_present_owner};
#[allow(unused_imports)]
use super::sync::{ready_outcome, signalled};
#[allow(unused_imports)]
use super::user::{
    admitted, departed, evicted_outcome, is_alive, is_random_id, login_outcome, login_possible,
    login_request, quit_message, rejection, stale_left, LoginModel,
};
#[allow(unused_imports)]
use super::util::{done, resolved_in_game, Outcome};
#[allow(unused_imports)]
use super::possible_outcome;

verus! {

/// The same people are logged in at the same addresses under the same names, and
/// the configuration is the same.
pub open spec fn same_people(m: ServerModel, after: ServerModel) -> bool {
    &&& after.config == m.config
    &&& after.by_addr == m.by_addr
    &&& after.by_id.dom() == m.by_id.dom()
    &&& forall|id: u128|
        m.by_id.dom().contains(id) ==> (#[trigger] after.by_id[id]).username
            == m.by_id[id].username
}

/// Every address has a session of its own, and every session has an address.
pub open spec fn registered(m: ServerModel) -> bool {
    &&& own_sessions(m)
    &&& forall|a: u64| #[trigger]
        m.by_addr.dom().contains(a) ==> m.by_id.dom().contains(m.by_addr[a])
    &&& forall|id: u128| #[trigger]
        m.by_id.dom().contains(id) ==> m.by_addr.values().contains(id)
}

/// No two clients have the same username.
pub open spec fn distinct_names(m: ServerModel) -> bool {
    forall|a: u64, b: u64|
        (#[trigger] m.client(a)) is Some && (#[trigger] m.client(b)) is Some && (m.client(
            a,
        )->0).username == (m.client(b)->0).username ==> a == b
}

/// Everybody is registered, under a name of its own.
pub open spec fn one_name_each(m: ServerModel) -> bool {
    registered(m) && distinct_names(m)
}

/// The same people still have a name each.
pub proof fn lemma_same_people(m: ServerModel, after: ServerModel)
    requires
        one_name_each(m),
        same_people(m, after),
    ensures
        one_name_each(after),
{
    assert forall|a: u64, b: u64|
        (#[trigger] after.client(a)) is Some && (#[trigger] after.client(b)) is Some && (
        after.client(a)->0).username == (after.client(b)->0).username implies a == b by {
        assert(after.by_id[m.by_addr[a]].username == m.by_id[m.by_addr[a]].username);
        assert(after.by_id[m.by_addr[b]].username == m.by_id[m.by_addr[b]].username);
        assert(m.client(a) is Some && m.client(b) is Some);
    }
}

/// Marking players changes no names.
proof fn lemma_mark_people(m: ServerModel, players: Seq<PlayerModel>, status: u8, n: nat)
    ensures
        same_people(m, mark_players(m, players, status, n)),
    decreases n,
{
    if n > 0 {
        lemma_mark_people(m, players, status, (n - 1) as nat);
        let after = mark_players(m, players, status, n);
        assert(after.by_id.dom() =~= m.by_id.dom());
    }
}

/// A drop changes no names.
proof fn lemma_drop_people(m: ServerModel, game_id: u32, src: u64)
    ensures
        same_people(m, drop_outcome(m, game_id, src).state),
{
    if let (Some(client), Some(game)) = (m.client(src), m.game(game_id)) {
        if let (Some(sync), Some(slot)) = (game.sync, game.slot_of(src)) {
            let going_on = m.with_game(
                game_id,
                GameModel { sync: Some(sync.after_drop(slot)), ..game },
            );
            lemma_mark_people(going_on, game.players, PLAYER_STATUS_IDLE, game.players.len());
            let over = m.with_game(game_id, ended_game(game));
            lemma_mark_people(over, game.players, PLAYER_STATUS_IDLE, game.players.len());
        }
    }
}

/// Changing a client but not its name changes no names.
proof fn lemma_client_people(m: ServerModel, src: u64, client: ClientModel)
    requires
        m.client(src) matches Some(known) && known.username == client.username,
    ensures
        same_people(m, m.with_client(src, client)),
{
    assert(m.with_client(src, client).by_id.dom() =~= m.by_id.dom());
}

/// Leaving the room of a live game changes no names.
proof fn lemma_live_people(m: ServerModel, game_id: u32, game: GameModel, who: u64)
    requires
        m.client(who) is Some,
    ensures
        ({
            let lobby = m.with_client(who, back_in_lobby(m.client(who)->0));
            same_people(m, live_room_left(lobby, game_id, game, who).state)
        }),
{
    let lobby = m.with_client(who, back_in_lobby(m.client(who)->0));
    lemma_client_people(m, who, back_in_lobby(m.client(who)->0));
    lemma_drop_people(
        lobby.with_game(game_id, with_present_owner(tombstoned(game, who))),
        game_id,
        who,
    );
}

/// Leaving a room changes no names.
pub proof fn lemma_quit_people(m: ServerModel, src: u64)
    ensures
        same_people(m, quit_game_outcome(m, src).state),
{
    if let Some(client) = m.client(src) {
        lemma_client_people(m, src, back_in_lobby(client));
        if let Some(room) = client.game_id {
            if let Some(game) = m.game(room) {
                lemma_live_people(m, room, game, src);
            }
        }
    }
}

/// Kicking changes no names.
proof fn lemma_kick_people(m: ServerModel, src: u64, found: Option<u64>)
    ensures
        same_people(m, kick_outcome(m, src, found).state),
{
    if let (Some(client), Some(target)) = (m.client(src), found) {
        if let (Some(room), Some(kicked)) = (client.game_id, m.client(target)) {
            if let Some(game) = m.game(room) {
                lemma_live_people(m, room, game, target);
            }
        }
    }
}

/// Opening and joining a room, starting a game and getting ready change no names.
proof fn lemma_room_people(m: ServerModel, src: u64, data: Seq<u8>)
    ensures
        same_people(m, create_game_outcome(m, src, data).state),
        same_people(m, join_game_outcome(m, src, data).state),
        same_people(m, start_game_outcome(m, src).state),
        same_people(m, ready_outcome(m, src).state),
{
    let created = create_game_outcome(m, src, data).state;
    let joined = join_game_outcome(m, src, data).state;
    let ready = ready_outcome(m, src).state;
    if let Some(client) = m.client(src) {
        assert(created.by_id.dom() =~= m.by_id.dom());
        assert(joined.by_id.dom() =~= m.by_id.dom());
        let marked = ClientModel { player_status: PLAYER_STATUS_NET_SYNC, ..client };
        lemma_client_people(m, src, marked);
        if let Some(room) = client.game_id {
            if let Some(game) = m.game(room) {
                let started = started_game(game, m.config.disable_output_cache);
                lemma_mark_people(
                    m.with_game(room, started),
                    started.players,
                    PLAYER_STATUS_NET_SYNC,
                    started.players.len(),
                );
                let noted = signalled(game, src);
                let kept = present(noted.players);
                lemma_mark_people(
                    m.with_client(src, marked).with_game(room, noted),
                    kept,
                    PLAYER_STATUS_PLAYING,
                    kept.len(),
                );
            }
        }
    }
}

/// Whatever a client asks for other than to log in or out, the same people are
/// logged in under the same names.
proof fn lemma_request_people(
    m: ServerModel,
    src: u64,
    message: MessageModel,
    now_secs: u64,
    now: u64,
    outcome: Outcome<()>,
)
    requires
        message.message_type != USER_LOGIN,
        message.message_type != USER_QUIT,
        possible_outcome(m, src, message, now_secs, now, outcome),
    ensures
        same_people(m, outcome.state),
{
    let data = message.data;
    lemma_quit_people(m, src);
    lemma_room_people(m, src, data);
    if message.message_type == CLIENT_TO_SERVER_ACK {
        if let Some(client) = m.client(src) {
            let known = outcome.state.by_id[m.by_addr[src]];
            lemma_client_people(m, src, known);
            assert(outcome.state =~= m.with_client(src, known));
        }
    }
    if message.message_type == KICK_USER {
        let found = choose|found: Option<u64>|
            #![trigger kick_outcome(m, src, found)]
            m.user_id_found(kick_target(data), found) && outcome == kick_outcome(m, src, found);
        lemma_kick_people(m, src, found);
    }
    if let Some((game_id, slot)) = resolved_in_game(m, src) {
        lemma_drop_people(m, game_id, src);
    }
}

/// Removing a client leaves a name each, and its name is free.
pub proof fn lemma_departed_names(m: ServerModel, addr: u64, message: Seq<u8>)
    requires
        one_name_each(m),
    ensures
        one_name_each(departed(m, addr, message).state),
        departed(m, addr, message).state.config == m.config,
        m.client(addr) matches Some(client) ==> forall|id: u128|
            !#[trigger] departed(m, addr, message).state.named(id, client.username),
        departed(m, addr, message).state.by_addr == m.by_addr.remove(addr),
        departed(m, addr, message).state.by_id.dom().subset_of(m.by_id.dom()),
{
    let after = departed(m, addr, message).state;
    if m.by_addr.dom().contains(addr) {
        let gone = m.by_addr[addr];
        assert forall|a: u64| #[trigger] after.by_addr.dom().contains(a) implies after.by_id.dom().contains(
            after.by_addr[a],
        ) by {
            assert(m.by_addr.dom().contains(a));
            assert(m.by_addr[a] != gone);
        }
        assert forall|id: u128| #[trigger] after.by_id.dom().contains(id) implies
            after.by_addr.values().contains(id) by {
            assert(m.by_addr.values().contains(id));
            let a = choose|a: u64| m.by_addr.dom().contains(a) && #[trigger] m.by_addr[a] == id;
            assert(after.by_addr.dom().contains(a) && after.by_addr[a] == id);
        }
        assert forall|a: u64, b: u64|
            (#[trigger] after.client(a)) is Some && (#[trigger] after.client(b)) is Some && (
            after.client(a)->0).username == (after.client(b)->0).username implies a == b by {
            assert(m.client(a) == after.client(a) && m.client(b) == after.client(b));
        }
        let client = m.by_id[gone];
        assert forall|id: u128| !#[trigger] after.named(id, client.username) by {
            if after.named(id, client.username) {
                assert(m.by_addr.values().contains(id));
                let a = choose|a: u64| m.by_addr.dom().contains(a) && #[trigger] m.by_addr[a] == id;
                assert(m.client(a) is Some && m.client(addr) is Some);
            }
        }
    } else {
        assert(m.by_addr.remove(addr) =~= m.by_addr);
    }
}

/// Letting in a client with a name that nobody has, at an address where nobody is,
/// leaves a name each.
proof fn lemma_admitted_names(
    m: ServerModel,
    src: u64,
    request: LoginModel,
    session_id: u128,
    now_secs: u64,
    now: u64,
)
    requires
        one_name_each(m),
        !m.by_addr.dom().contains(src),
        !m.by_id.dom().contains(session_id),
        forall|id: u128| !#[trigger] m.named(id, request.username),
    ensures
        one_name_each(admitted(m, src, request, session_id, now_secs, now).state),
{
    let after = admitted(m, src, request, session_id, now_secs, now).state;
    assert forall|a: u64| #[trigger] after.by_addr.dom().contains(a) implies a == src || (
    m.by_addr.dom().contains(a) && after.by_addr[a] == m.by_addr[a] && after.by_addr[a]
        != session_id && after.by_id.dom().contains(after.by_addr[a])) by {
        if a != src {
            assert(m.by_addr.dom().contains(a));
        }
    }
    assert forall|id: u128| #[trigger] after.by_id.dom().contains(id) implies
        after.by_addr.values().contains(id) by {
        if id == session_id {
            assert(after.by_addr.dom().contains(src) && after.by_addr[src] == id);
        } else {
            assert(m.by_addr.values().contains(id));
            let a = choose|a: u64| m.by_addr.dom().contains(a) && #[trigger] m.by_addr[a] == id;
            assert(after.by_addr.dom().contains(a) && after.by_addr[a] == id);
        }
    }
    assert forall|a: u64, b: u64|
        after.by_addr.dom().contains(a) && after.by_addr.dom().contains(b)
            && #[trigger] after.by_addr[a] == #[trigger] after.by_addr[b] implies a == b by {
        if a != src && b != src {
            assert(m.by_addr[a] == m.by_addr[b]);
        }
    }
    assert forall|a: u64, b: u64|
        (#[trigger] after.client(a)) is Some && (#[trigger] after.client(b)) is Some && (
        after.client(a)->0).username == (after.client(b)->0).username implies a == b by {
        if a != src {
            assert(after.client(a) == m.client(a));
            assert(!m.named(m.by_addr[a], request.username));
        }
        if b != src {
            assert(after.client(b) == m.client(b));
            assert(!m.named(m.by_addr[b], request.username));
        }
    }
}

/// At first, without clients, there is nothing to share.
pub proof fn law_empty_server_shares_no_name(m: ServerModel)
    requires
        m.by_addr == Map::<u64, u128>::empty(),
        m.by_id == Map::<u128, ClientModel>::empty(),
    ensures
        one_name_each(m),
{
}

/// Whatever a client asks for other than to log in, afterwards everybody who is
/// logged in still has a name of its own.
pub proof fn law_names_stay_distinct(
    m: ServerModel,
    src: u64,
    message: MessageModel,
    now_secs: u64,
    now: u64,
    outcome: Outcome<()>,
)
    requires
        one_name_each(m),
        message.message_type != USER_LOGIN,
        possible_outcome(m, src, message, now_secs, now, outcome),
    ensures
        one_name_each(outcome.state),
{
    if message.message_type == USER_QUIT {
        lemma_quit_people(m, src);
        lemma_same_people(m, quit_game_outcome(m, src).state);
        lemma_departed_names(
            quit_game_outcome(m, src).state,
            src,
            quit_message(message.data),
        );
    } else {
        lemma_request_people(m, src, message, now_secs, now, outcome);
        lemma_same_people(m, outcome.state);
    }
}

/// Where everybody has a name of its own, a name is looked up rightly: who is found
/// is who has the name, and nobody is found only if nobody has it.
proof fn lemma_lookup(m: ServerModel, username: Seq<u8>, found: Option<u64>)
    requires
        one_name_each(m),
        m.username_found(username, found),
    ensures
        match found {
            Some(addr) => m.client(addr) matches Some(client) && client.username == username,
            None => forall|id: u128| !#[trigger] m.named(id, username),
        },
{
    if found is None {
        assert forall|id: u128| !#[trigger] m.named(id, username) by {
            if m.named(id, username) {
                let orphan = choose|id: u128| #[trigger]
                    m.named(id, username) && !m.by_addr.values().contains(id);
                assert(m.by_id.dom().contains(orphan));
            }
        }
    }
}

/// The same holds of a login under a new session identifier, from an address where
/// nobody is logged in under another name.
pub proof fn law_login_keeps_names_distinct(
    m: ServerModel,
    src: u64,
    request: LoginModel,
    now_secs: u64,
    now: u64,
    found: Option<u64>,
    evicted: Option<u64>,
    session_id: u128,
)
    requires
        one_name_each(m),
        login_possible(m, request.username, found, evicted),
        m.client(src) matches Some(client) ==> client.username == request.username,
        !m.by_id.dom().contains(session_id),
    ensures
        one_name_each(
            login_outcome(m, src, request, now_secs, now, found, evicted, session_id).state,
        ),
{
    lemma_lookup(m, request.username, found);
    match found {
        None => {
            if m.by_addr.dom().contains(src) {
                assert(m.named(m.by_addr[src], request.username));
            }
            lemma_admitted_names(m, src, request, session_id, now_secs, now);
        },
        Some(addr) => {
            let left = stale_left(m, addr).state;
            lemma_quit_people(m, addr);
            assert(same_people(m, left));
            lemma_same_people(m, left);
            lemma_lookup(left, request.username, evicted);
            let id = m.by_addr[addr];
            assert(left.by_id[id].username == m.by_id[id].username);
            assert(left.named(id, request.username));
            assert(left.client(addr) is Some);
            assert(evicted == Some(addr));
            let gone = evicted_outcome(left, evicted).state;
            lemma_departed_names(left, addr, Seq::empty());
            assert(gone == departed(left, addr, Seq::empty()).state);
            if m.by_addr.dom().contains(src) && src != addr {
                assert(m.client(src) is Some && m.client(addr) is Some);
            }
            lemma_admitted_names(gone, src, request, session_id, now_secs, now);
        },
    }
}

/// A username that is in use cannot be taken: the login is answered with a
/// rejection and changes nothing.
pub proof fn law_name_in_use_is_refused(
    m: ServerModel,
    src: u64,
    message: MessageModel,
    now_secs: u64,
    now: u64,
    outcome: Outcome<()>,
    holder: u64,
)
    requires
        one_name_each(m),
        message.message_type == USER_LOGIN,
        login_request(message.data).conn_type == CONN_TYPE_LAN,
        m.client(holder) matches Some(client) && client.username == login_request(
            message.data,
        ).username && is_alive(client, now_secs),
        possible_outcome(m, src, message, now_secs, now, outcome),
    ensures
        outcome == done(m, seq![rejection(src, "Username is already in use."@)]),
{
    let request = login_request(message.data);
    let (found, evicted, session_id) = choose|
        found: Option<u64>,
        evicted: Option<u64>,
        session_id: u128,
    |
        #![trigger login_outcome(m, src, request, now_secs, now, found, evicted, session_id)]
        login_possible(m, request.username, found, evicted) && is_random_id(session_id) && outcome
            == login_outcome(m, src, request, now_secs, now, found, evicted, session_id);
    lemma_lookup(m, request.username, found);
    assert(m.named(m.by_addr[holder], request.username));
    assert(found == Some(holder)) by {
        assert(m.client(holder) is Some);
        assert(m.client(found->0) is Some);
    }
}

/// No request changes the configuration.
pub proof fn law_configuration_stays(
    m: ServerModel,
    src: u64,
    message: MessageModel,
    now_secs: u64,
    now: u64,
    outcome: Outcome<()>,
)
    requires
        possible_outcome(m, src, message, now_secs, now, outcome),
    ensures
        outcome.state.config == m.config,
{
    lemma_quit_people(m, src);
    if message.message_type == USER_LOGIN {
        let request = login_request(message.data);
        let (found, evicted, session_id) = choose|
            found: Option<u64>,
            evicted: Option<u64>,
            session_id: u128,
        |
            #![trigger login_outcome(m, src, request, now_secs, now, found, evicted, session_id)]
            login_possible(m, request.username, found, evicted) && is_random_id(session_id)
                && outcome == login_outcome(
                m,
                src,
                request,
                now_secs,
                now,
                found,
                evicted,
                session_id,
            );
        if let Some(addr) = found {
            lemma_quit_people(m, addr);
        }
    } else if message.message_type != USER_QUIT {
        lemma_request_people(m, src, message, now_secs, now, outcome);
    }
}

} // verus!
