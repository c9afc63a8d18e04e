//! What handlers share: actions, addressing, and bodies made from the state.

use vstd::prelude::*;
#[allow(unused_imports)]
use vstd::utf8::encode_utf8;
use crate::bytes_util::{copy_bytes, copy_range};
#[allow(unused_imports)]
use crate::map_util::lists_keys;
use crate::packet_util::{
    build_player_information_packet, build_server_information_packet, build_server_status_packet,
    build_update_game_status_packet, GameEntry, PlayerEntry, UserEntry,
};
#[allow(unused_imports)]
use crate::packet_util::{
    chat_body, game_entries_view, game_status_body, player_entries_view, player_information_body,
    server_status_body, user_entries_view, GameEntryModel, PlayerEntryModel, UserEntryModel,
};
use crate::state::{AppState, ClientInfo, GameInfo, GamePlayerInfo, ServerError};
#[allow(unused_imports)]
use crate::state::{
    distinct_addrs, has_addr, players_view, ClientModel, GameModel, PlayerModel, ServerModel,
};
use crate::text::text_bytes;

verus! {

/// What the server is to do for a request, in order.
#[derive(Debug, Clone)]
pub enum Action {
    /// Send a message to each of these clients once.
    Send { to: Vec<u64>, message_type: u8, data: Vec<u8> },
    /// Send a message to an address that is not logged in, numbered from 0.
    SendAlone { to: u64, message_type: u8, data: Vec<u8> },
    /// Number the messages to this client from 0 again.
    StartNumbering { addr: u64 },
    /// Tear down the session of this address.
    CloseSession { addr: u64 },
}

/// An action as a mathematical value.
pub enum ActionModel {
    Send { to: Set<u64>, message_type: u8, data: Seq<u8> },
    SendAlone { to: u64, message_type: u8, data: Seq<u8> },
    StartNumbering { addr: u64 },
    CloseSession { addr: u64 },
}

impl View for Action {
    type V = ActionModel;

    open spec fn view(&self) -> ActionModel {
        match self {
            Action::Send { to, message_type, data } => ActionModel::Send {
                to: to@.to_set(),
                message_type: *message_type,
                data: data@,
            },
            Action::SendAlone { to, message_type, data } => ActionModel::SendAlone {
                to: *to,
                message_type: *message_type,
                data: data@,
            },
            Action::StartNumbering { addr } => ActionModel::StartNumbering { addr: *addr },
            Action::CloseSession { addr } => ActionModel::CloseSession { addr: *addr },
        }
    }
}

impl Action {
    /// Nobody is sent the same message twice.
    pub open spec fn wf(self) -> bool {
        self matches Action::Send { to, .. } ==> to@.no_duplicates()
    }
}

/// The views of a list of actions.
pub open spec fn actions_view(actions: Seq<Action>) -> Seq<ActionModel> {
    actions.map_values(|a: Action| a@)
}

/// In no action anybody is sent the same message twice.
pub open spec fn actions_wf(actions: Seq<Action>) -> bool {
    forall|i: int| 0 <= i < actions.len() ==> (#[trigger] actions[i]).wf()
}

/// What a request does: the state after it, the actions and the result.
pub struct Outcome<R> {
    pub state: ServerModel,
    pub actions: Seq<ActionModel>,
    pub result: Result<R, ServerError>,
}

/// A request that succeeds.
pub open spec fn done(state: ServerModel, actions: Seq<ActionModel>) -> Outcome<()> {
    Outcome { state, actions, result: Ok(()) }
}

/// A request that fails; what it did so far stands.
pub open spec fn failed<R>(
    state: ServerModel,
    actions: Seq<ActionModel>,
    error: ServerError,
) -> Outcome<R> {
    Outcome { state, actions, result: Err(error) }
}

/// A handler that left `state`, extended `before` to `after` and returned
/// `result` did what `outcome` says.
pub open spec fn yields<R>(
    outcome: Outcome<R>,
    state: ServerModel,
    before: Seq<Action>,
    after: Seq<Action>,
    result: Result<R, ServerError>,
) -> bool {
    &&& state == outcome.state
    &&& actions_view(after) == actions_view(before) + outcome.actions
    &&& result == outcome.result
    &&& actions_wf(before) ==> actions_wf(after)
}

/// The message to one client.
pub open spec fn to_one(addr: u64, message_type: u8, data: Seq<u8>) -> ActionModel {
    ActionModel::Send { to: set![addr], message_type, data }
}

/// The message to all clients.
pub open spec fn to_all(m: ServerModel, message_type: u8, data: Seq<u8>) -> ActionModel {
    ActionModel::Send { to: m.by_addr.dom(), message_type, data }
}

/// The addresses of a list of players.
pub open spec fn player_addrs(players: Seq<PlayerModel>) -> Set<u64> {
    Set::new(|addr: u64| has_addr(players, addr))
}

/// The message to everybody who is listed in a room.
pub open spec fn to_room(game: GameModel, message_type: u8, data: Seq<u8>) -> ActionModel {
    ActionModel::Send { to: player_addrs(game.players), message_type, data }
}

/// Adding an action adds its view.
pub proof fn lemma_actions_push(actions: Seq<Action>, action: Action)
    ensures
        actions_view(actions.push(action)) == actions_view(actions).push(action@),
        actions_wf(actions) && action.wf() ==> actions_wf(actions.push(action)),
{
    assert(actions_view(actions.push(action)) =~= actions_view(actions).push(action@));
    if actions_wf(actions) && action.wf() {
        let more = actions.push(action);
        assert forall|i: int| 0 <= i < more.len() implies (#[trigger] more[i]).wf() by {
            if i < actions.len() {
                assert(actions[i].wf());
            }
        }
    }
}

/// Adds an action.
pub fn emit(out: &mut Vec<Action>, action: Action)
    ensures
        actions_view(final(out)@) == actions_view(old(out)@).push(action@),
        actions_wf(old(out)@) && action.wf() ==> actions_wf(final(out)@),
{
    proof {
        lemma_actions_push(out@, action);
    }
    out.push(action);
}

/// Sends a message to one client.
pub fn send_packet(out: &mut Vec<Action>, addr: u64, message_type: u8, data: Vec<u8>)
    ensures
        actions_view(final(out)@) == actions_view(old(out)@).push(
            to_one(addr, message_type, data@),
        ),
        actions_wf(old(out)@) ==> actions_wf(final(out)@),
{
    let mut to: Vec<u64> = Vec::new();
    to.push(addr);
    assert(to@[0] == addr);
    assert(to@.to_set() =~= set![addr]);
    emit(out, Action::Send { to, message_type, data });
}

/// Sends a message to all clients.
pub fn broadcast_packet(state: &AppState, out: &mut Vec<Action>, message_type: u8, data: Vec<u8>)
    ensures
        actions_view(final(out)@) == actions_view(old(out)@).push(
            to_all(state@, message_type, data@),
        ),
        actions_wf(old(out)@) ==> actions_wf(final(out)@),
{
    let to: Vec<u64> = state.get_all_client_addrs();
    emit(out, Action::Send { to, message_type, data });
}

/// The addresses of a room's players, each once.
fn room_addrs(players: &[GamePlayerInfo]) -> (addrs: Vec<u64>)
    requires
        distinct_addrs(players_view(players@)),
    ensures
        addrs@.no_duplicates(),
        addrs@.to_set() == player_addrs(players_view(players@)),
{
    let ghost all = players_view(players@);
    let mut addrs: Vec<u64> = Vec::new();
    let mut i: usize = 0;
    while i < players.len()
        invariant
            i <= players@.len(),
            all == players_view(players@),
            addrs@.len() == i,
            forall|j: int| 0 <= j < i ==> #[trigger] addrs@[j] == all[j].addr,
        decreases players.len() - i,
    {
        assert(all[i as int] == players@[i as int]@);
        addrs.push(players[i].addr);
        i += 1;
    }
    assert forall|a: int, b: int| 0 <= a < b < addrs@.len() implies addrs@[a] != addrs@[b] by {
        assert(all[a].addr != all[b].addr);
    }
    assert forall|addr: u64| #[trigger] addrs@.to_set().contains(addr) == player_addrs(all).contains(
        addr,
    ) by {
        if has_addr(all, addr) {
            let j = choose|j: int| 0 <= j < all.len() && #[trigger] all[j].addr == addr;
            assert(addrs@[j] == addr);
        }
        if addrs@.contains(addr) {
            let j = choose|j: int| 0 <= j < addrs@.len() && addrs@[j] == addr;
            assert(all[j].addr == addr);
        }
    }
    assert(addrs@.to_set() =~= player_addrs(all));
    addrs
}

/// Sends a message to everybody who is listed in a room.
pub fn send_to_room(game: &GameInfo, out: &mut Vec<Action>, message_type: u8, data: Vec<u8>)
    requires
        distinct_addrs(game@.players),
    ensures
        actions_view(final(out)@) == actions_view(old(out)@).push(
            to_room(game@, message_type, data@),
        ),
        actions_wf(old(out)@) ==> actions_wf(final(out)@),
{
    let to: Vec<u64> = room_addrs(game.players.as_slice());
    emit(out, Action::Send { to, message_type, data });
}

/// The message to everybody who is listed in a room, where the room exists.
pub open spec fn to_game(
    m: ServerModel,
    game_id: u32,
    message_type: u8,
    data: Seq<u8>,
) -> Seq<ActionModel> {
    match m.game(game_id) {
        Some(game) => seq![to_room(game, message_type, data)],
        None => Seq::empty(),
    }
}

/// Sends a message to everybody who is listed in a room, where the room exists.
pub fn broadcast_packet_to_game(
    state: &AppState,
    out: &mut Vec<Action>,
    game_id: u32,
    message_type: u8,
    data: Vec<u8>,
)
    requires
        state@.wf(),
    ensures
        actions_view(final(out)@) == actions_view(old(out)@) + to_game(
            state@,
            game_id,
            message_type,
            data@,
        ),
        actions_wf(old(out)@) ==> actions_wf(final(out)@),
{
    let ghost before = actions_view(out@);
    if let Some(game) = state.get_game(game_id) {
        send_to_room(game, out, message_type, data);
    }
    assert(actions_view(out@) =~= before + to_game(state@, game_id, message_type, data@));
}

/// The room and the slot of the client at an address.
pub open spec fn resolved_in_game(m: ServerModel, src: u64) -> Option<(u32, int)> {
    match m.client(src) {
        Some(client) => match client.game_id {
            Some(game_id) => match m.game(game_id) {
                Some(game) => match game.slot_of(src) {
                    Some(slot) => Some((game_id, slot)),
                    None => None,
                },
                None => None,
            },
            None => None,
        },
        None => None,
    }
}

/// Finds the room and the slot of the client at an address.
pub fn resolve_in_game(state: &AppState, src: u64) -> (found: Option<(u32, usize)>)
    requires
        state@.wf(),
    ensures
        match found {
            Some((game_id, slot)) => resolved_in_game(state@, src) == Some((game_id, slot as int))
                && state@.game(game_id) is Some && slot < state@.games[game_id].players.len(),
            None => resolved_in_game(state@, src) is None,
        },
{
    let client: ClientInfo = match state.get_client(src) {
        Some(client) => client,
        None => {
            return None;
        },
    };
    let game_id: u32 = match client.game_id {
        Some(game_id) => game_id,
        None => {
            return None;
        },
    };
    match state.get_game(game_id) {
        Some(game) => match game.slot_of(src) {
            Some(slot) => Some((game_id, slot)),
            None => None,
        },
        None => None,
    }
}

/// Body that reports the state of a room.
pub open spec fn status_of(game: GameModel) -> Seq<u8> {
    game_status_body(game.game_id, game.game_status, game.num_players, game.max_players)
}

/// Builds the report of a room's state.
pub fn make_update_game_status(game: &GameInfo) -> (data: Vec<u8>)
    ensures
        data@ == status_of(game@),
{
    build_update_game_status_packet(
        game.game_id,
        game.game_status,
        game.num_players,
        game.max_players,
    )
}

/// The ping of the client at an address; 0 where nobody is logged in there.
pub open spec fn ping_of(m: ServerModel, addr: u64) -> u32 {
    match m.client(addr) {
        Some(client) => client.ping,
        None => 0,
    }
}

/// The players of a list other than the one at `src`, as others see them.
pub open spec fn other_players(
    m: ServerModel,
    players: Seq<PlayerModel>,
    src: u64,
) -> Seq<PlayerEntryModel>
    decreases players.len(),
{
    if players.len() == 0 {
        Seq::empty()
    } else {
        let before = other_players(m, players.drop_last(), src);
        let last = players.last();
        if last.addr == src {
            before
        } else {
            before.push(
                PlayerEntryModel {
                    username: last.username,
                    ping: ping_of(m, last.addr),
                    user_id: last.user_id,
                    conn_type: last.conn_type,
                },
            )
        }
    }
}

/// Builds the list of a room's players for the one at `src`, who is not listed.
pub fn make_player_information(src: u64, state: &AppState, game: &GameInfo) -> (data: Vec<u8>)
    ensures
        data@ == player_information_body(other_players(state@, game@.players, src)),
{
    let ghost all = game@.players;
    let mut entries: Vec<PlayerEntry> = Vec::new();
    let mut i: usize = 0;
    assert(all.take(0) =~= Seq::empty());
    assert(player_entries_view(entries@) =~= Seq::empty());
    while i < game.players.len()
        invariant
            i <= game.players@.len(),
            all == game@.players,
            player_entries_view(entries@) == other_players(state@, all.take(i as int), src),
        decreases game.players.len() - i,
    {
        let player: &GamePlayerInfo = &game.players[i];
        assert(all.take(i + 1).drop_last() =~= all.take(i as int));
        assert(all.take(i + 1).last() == player@);
        if player.addr != src {
            let ping: u32 = match state.get_client(player.addr) {
                Some(client) => client.ping,
                None => 0,
            };
            let entry = PlayerEntry {
                username: copy_bytes(player.username.as_slice()),
                ping,
                user_id: player.user_id,
                conn_type: player.conn_type,
            };
            let ghost listed = entries@;
            entries.push(entry);
            assert(player_entries_view(entries@) =~= player_entries_view(listed).push(entry@));
        }
        i += 1;
    }
    assert(all.take(i as int) =~= all);
    build_player_information_packet(entries.as_slice())
}

/// A client as the lobby sees it.
pub open spec fn user_entry(client: ClientModel) -> UserEntryModel {
    UserEntryModel {
        username: client.username,
        ping: client.ping,
        player_status: client.player_status,
        user_id: client.user_id,
        conn_type: client.conn_type,
    }
}

/// A room as the lobby sees it.
pub open spec fn game_entry(game: GameModel) -> GameEntryModel {
    GameEntryModel {
        game_name: game.game_name,
        game_id: game.game_id,
        emulator_name: game.emulator_name,
        owner: game.owner,
        num_players: game.num_players,
        max_players: game.max_players,
        game_status: game.game_status,
    }
}

/// The users at these addresses other than the one at `src`.
pub open spec fn other_users(m: ServerModel, addrs: Seq<u64>, src: u64) -> Seq<UserEntryModel>
    decreases addrs.len(),
{
    if addrs.len() == 0 {
        Seq::empty()
    } else {
        let before = other_users(m, addrs.drop_last(), src);
        match m.client(addrs.last()) {
            Some(client) => if addrs.last() == src {
                before
            } else {
                before.push(user_entry(client))
            },
            None => before,
        }
    }
}

/// `data` is a snapshot of the lobby for the client at `src`: every other user
/// and every room once, in some order.
pub open spec fn is_server_status(m: ServerModel, src: u64, data: Seq<u8>) -> bool {
    exists|addrs: Seq<u64>, ids: Seq<u32>|
        #![trigger lists_keys(addrs, m.by_addr), lists_keys(ids, m.games)]
        lists_keys(addrs, m.by_addr) && lists_keys(ids, m.games) && data == server_status_body(
            other_users(m, addrs, src),
            ids.map_values(|id: u32| game_entry(m.games[id])),
        )
}

/// Builds the snapshot of the lobby for the client at `src`.
pub fn make_server_status(src: u64, state: &AppState) -> (data: Vec<u8>)
    ensures
        is_server_status(state@, src, data@),
{
    let ghost m = state@;
    let addrs: Vec<u64> = state.get_all_client_addrs();
    let mut users: Vec<UserEntry> = Vec::new();
    let mut i: usize = 0;
    assert(addrs@.take(0) =~= Seq::empty());
    assert(user_entries_view(users@) =~= Seq::empty());
    while i < addrs.len()
        invariant
            i <= addrs@.len(),
            m == state@,
            user_entries_view(users@) == other_users(m, addrs@.take(i as int), src),
        decreases addrs.len() - i,
    {
        let addr: u64 = addrs[i];
        assert(addrs@.take(i + 1).drop_last() =~= addrs@.take(i as int));
        assert(addrs@.take(i + 1).last() == addr);
        if let Some(client) = state.get_client(addr) {
            if addr != src {
                let entry = UserEntry {
                    username: copy_bytes(client.username.as_slice()),
                    ping: client.ping,
                    player_status: client.player_status,
                    user_id: client.user_id,
                    conn_type: client.conn_type,
                };
                let ghost listed = users@;
                users.push(entry);
                assert(user_entries_view(users@) =~= user_entries_view(listed).push(entry@));
            }
        }
        i += 1;
    }
    assert(addrs@.take(i as int) =~= addrs@);
    let ids: Vec<u32> = state.all_game_ids();
    let mut games: Vec<GameEntry> = Vec::new();
    let mut j: usize = 0;
    while j < ids.len()
        invariant
            j <= ids@.len(),
            m == state@,
            lists_keys(ids@, m.games),
            games@.len() == j,
            forall|k: int| 0 <= k < j ==> (#[trigger] games@[k])@ == game_entry(m.games[ids@[k]]),
        decreases ids.len() - j,
    {
        assert(ids@.to_set().contains(ids@[j as int]));
        if let Some(game) = state.get_game(ids[j]) {
            games.push(
                GameEntry {
                    game_name: copy_bytes(game.game_name.as_slice()),
                    game_id: game.game_id,
                    emulator_name: copy_bytes(game.emulator_name.as_slice()),
                    owner: copy_bytes(game.owner.as_slice()),
                    num_players: game.num_players,
                    max_players: game.max_players,
                    game_status: game.game_status,
                },
            );
        }
        j += 1;
    }
    assert(game_entries_view(games@) =~= ids@.map_values(|id: u32| game_entry(m.games[id])));
    let data: Vec<u8> = build_server_status_packet(users.as_slice(), games.as_slice());
    assert(lists_keys(addrs@, m.by_addr) && lists_keys(ids@, m.games));
    data
}

/// Bytes before the first line feed, or to the end.
pub open spec fn line_len(text: Seq<u8>) -> nat
    decreases text.len(),
{
    if text.len() == 0 || text[0] == 10 {
        0
    } else {
        1 + line_len(text.skip(1))
    }
}

/// A line without the carriage return of its line end.
pub open spec fn without_return(line: Seq<u8>) -> Seq<u8> {
    if line.len() > 0 && line.last() == 13 {
        line.drop_last()
    } else {
        line
    }
}

/// The lines of a text. A line ends with a line feed, with or without a carriage
/// return before it; the last line needs no end.
pub open spec fn lines_of(text: Seq<u8>) -> Seq<Seq<u8>>
    decreases text.len(),
{
    if text.len() == 0 {
        Seq::empty()
    } else if line_len(text) < text.len() {
        seq![without_return(text.take(line_len(text) as int))] + lines_of(
            text.skip(line_len(text) as int + 1),
        )
    } else {
        seq![text]
    }
}

/// The views of a list of byte strings.
pub open spec fn strings_view(strings: Seq<Vec<u8>>) -> Seq<Seq<u8>> {
    strings.map_values(|s: Vec<u8>| s@)
}

/// Where the line that starts at `from` ends.
fn line_end(text: &[u8], from: usize) -> (end: usize)
    requires
        from <= text@.len(),
    ensures
        from <= end <= text@.len(),
        end == from + line_len(text@.skip(from as int)),
{
    let mut end: usize = from;
    while end < text.len() && text[end] != 10
        invariant
            from <= end <= text@.len(),
            line_len(text@.skip(from as int)) == end - from + line_len(text@.skip(end as int)),
        decreases text@.len() - end,
    {
        assert(text@.skip(end as int).skip(1) =~= text@.skip(end + 1));
        end += 1;
    }
    end
}

/// The lines of a text.
pub fn split_lines(text: &[u8]) -> (lines: Vec<Vec<u8>>)
    ensures
        strings_view(lines@) == lines_of(text@),
{
    let mut lines: Vec<Vec<u8>> = Vec::new();
    let mut from: usize = 0;
    assert(text@.skip(0) =~= text@);
    assert(strings_view(lines@) + lines_of(text@) =~= lines_of(text@));
    while from < text.len()
        invariant
            from <= text@.len(),
            strings_view(lines@) + lines_of(text@.skip(from as int)) == lines_of(text@),
        decreases text@.len() - from,
    {
        let ghost here = text@.skip(from as int);
        let ghost listed = lines@;
        let end: usize = line_end(text, from);
        if end < text.len() {
            let stop: usize = if end > from && text[end - 1] == 13 {
                end - 1
            } else {
                end
            };
            let line: Vec<u8> = copy_range(text, from, stop);
            let ghost whole = here.take(line_len(here) as int);
            assert(whole =~= text@.subrange(from as int, end as int));
            assert(line@ =~= without_return(whole));
            lines.push(line);
            assert(strings_view(lines@) =~= strings_view(listed).push(line@));
            assert(here.skip(line_len(here) as int + 1) =~= text@.skip(end + 1));
            assert(strings_view(listed) + (seq![line@] + lines_of(text@.skip(end + 1)))
                =~= strings_view(lines@) + lines_of(text@.skip(end + 1)));
            from = end + 1;
        } else {
            let line: Vec<u8> = copy_range(text, from, end);
            assert(line@ =~= here);
            lines.push(line);
            assert(strings_view(lines@) =~= strings_view(listed).push(line@));
            from = end;
            assert(text@.skip(from as int) =~= Seq::empty());
            assert(strings_view(listed) + seq![here] =~= strings_view(lines@) + Seq::empty());
        }
    }
    assert(text@.skip(from as int) =~= Seq::empty());
    assert(strings_view(lines@) + Seq::empty() =~= strings_view(lines@));
    lines
}

/// The welcome message, one body per line, each a chat line from the server.
pub open spec fn welcome_bodies(m: ServerModel) -> Seq<Seq<u8>> {
    lines_of(encode_utf8(m.config.welcome_message@)).map_values(
        |line: Seq<u8>| chat_body(encode_utf8("Server"@), line),
    )
}

/// Builds the welcome message, one body per line: a client shows each as one
/// chat line and cuts it at the first line feed.
pub fn make_server_information(state: &AppState) -> (bodies: Vec<Vec<u8>>)
    ensures
        strings_view(bodies@) == welcome_bodies(state@),
{
    let text: Vec<u8> = text_bytes(state.config().welcome_message.as_str());
    let lines: Vec<Vec<u8>> = split_lines(text.as_slice());
    let source: Vec<u8> = text_bytes("Server");
    let mut bodies: Vec<Vec<u8>> = Vec::new();
    let mut i: usize = 0;
    while i < lines.len()
        invariant
            i <= lines@.len(),
            strings_view(lines@) == lines_of(encode_utf8(state@.config.welcome_message@)),
            source@ == encode_utf8("Server"@),
            bodies@.len() == i,
            forall|j: int|
                0 <= j < i ==> (#[trigger] bodies@[j])@ == welcome_bodies(state@)[j],
        decreases lines.len() - i,
    {
        assert(strings_view(lines@)[i as int] == lines@[i as int]@);
        bodies.push(build_server_information_packet(source.as_slice(), lines[i].as_slice()));
        i += 1;
    }
    assert(strings_view(bodies@) =~= welcome_bodies(state@));
    bodies
}

} // verus!
