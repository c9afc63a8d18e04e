//! Bodies of the messages that the server sends.

use vstd::prelude::*;
use crate::wire::{put_string, put_u16_le, put_u32_le, put_u8};
#[allow(unused_imports)]
use crate::wire::{le16, le32, terminated};
use crate::bytes_util::append_bytes;

verus! {

/// A player of a room, as other players see it.
pub struct PlayerEntry {
    pub username: Vec<u8>,
    pub ping: u32,
    pub user_id: u16,
    pub conn_type: u8,
}

/// A player entry as a mathematical value.
#[verifier::ext_equal]
pub struct PlayerEntryModel {
    pub username: Seq<u8>,
    pub ping: u32,
    pub user_id: u16,
    pub conn_type: u8,
}

impl View for PlayerEntry {
    type V = PlayerEntryModel;

    open spec fn view(&self) -> PlayerEntryModel {
        PlayerEntryModel {
            username: self.username@,
            ping: self.ping,
            user_id: self.user_id,
            conn_type: self.conn_type,
        }
    }
}

/// A user of the lobby, as other users see it.
pub struct UserEntry {
    pub username: Vec<u8>,
    pub ping: u32,
    pub player_status: u8,
    pub user_id: u16,
    pub conn_type: u8,
}

/// A user entry as a mathematical value.
#[verifier::ext_equal]
pub struct UserEntryModel {
    pub username: Seq<u8>,
    pub ping: u32,
    pub player_status: u8,
    pub user_id: u16,
    pub conn_type: u8,
}

impl View for UserEntry {
    type V = UserEntryModel;

    open spec fn view(&self) -> UserEntryModel {
        UserEntryModel {
            username: self.username@,
            ping: self.ping,
            player_status: self.player_status,
            user_id: self.user_id,
            conn_type: self.conn_type,
        }
    }
}

/// A room of the lobby.
pub struct GameEntry {
    pub game_name: Vec<u8>,
    pub game_id: u32,
    pub emulator_name: Vec<u8>,
    pub owner: Vec<u8>,
    pub num_players: u8,
    pub max_players: u8,
    pub game_status: u8,
}

/// A room entry as a mathematical value.
#[verifier::ext_equal]
pub struct GameEntryModel {
    pub game_name: Seq<u8>,
    pub game_id: u32,
    pub emulator_name: Seq<u8>,
    pub owner: Seq<u8>,
    pub num_players: u8,
    pub max_players: u8,
    pub game_status: u8,
}

impl View for GameEntry {
    type V = GameEntryModel;

    open spec fn view(&self) -> GameEntryModel {
        GameEntryModel {
            game_name: self.game_name@,
            game_id: self.game_id,
            emulator_name: self.emulator_name@,
            owner: self.owner@,
            num_players: self.num_players,
            max_players: self.max_players,
            game_status: self.game_status,
        }
    }
}

/// An empty string as it travels.
pub open spec fn empty_string() -> Seq<u8> {
    seq![0u8]
}

/// Body of the handshake acknowledgement.
pub open spec fn server_to_client_ack_body() -> Seq<u8> {
    empty_string() + le32(0) + le32(1) + le32(2) + le32(3)
}

/// Body that names a user and carries a text: quits and rejections.
pub open spec fn user_message_body(username: Seq<u8>, user_id: u16, message: Seq<u8>) -> Seq<u8> {
    terminated(username) + le16(user_id) + terminated(message)
}

/// Body that announces a user.
pub open spec fn user_joined_body(
    username: Seq<u8>,
    user_id: u16,
    ping: u32,
    conn_type: u8,
) -> Seq<u8> {
    terminated(username) + le16(user_id) + le32(ping) + seq![conn_type]
}

/// Body of a chat line, in the lobby or in a room.
pub open spec fn chat_body(username: Seq<u8>, message: Seq<u8>) -> Seq<u8> {
    terminated(username) + terminated(message)
}

/// Body that announces a room.
pub open spec fn new_game_body(
    username: Seq<u8>,
    game_name: Seq<u8>,
    emulator_name: Seq<u8>,
    game_id: u32,
) -> Seq<u8> {
    terminated(username) + terminated(game_name) + terminated(emulator_name) + le32(game_id)
}

/// Body that reports the state of a room.
pub open spec fn game_status_body(
    game_id: u32,
    game_status: u8,
    num_players: u8,
    max_players: u8,
) -> Seq<u8> {
    empty_string() + le32(game_id) + seq![game_status] + seq![num_players] + seq![max_players]
}

/// Body that tells a room who joined.
pub open spec fn join_game_body(
    username: Seq<u8>,
    ping: u32,
    user_id: u16,
    conn_type: u8,
) -> Seq<u8> {
    empty_string() + le32(0) + terminated(username) + le32(ping) + le16(user_id) + seq![conn_type]
}

/// Body that tells a room who left.
pub open spec fn quit_game_body(username: Seq<u8>, user_id: u16) -> Seq<u8> {
    terminated(username) + le16(user_id)
}

/// Body that closes a room.
pub open spec fn close_game_body(game_id: u32) -> Seq<u8> {
    empty_string() + le32(game_id)
}

/// Body that starts a game for one player.
pub open spec fn start_game_body(frame_delay: u16, player_number: u8, total: u8) -> Seq<u8> {
    empty_string() + le16(frame_delay) + seq![player_number] + seq![total]
}

/// Body that tells a room which player dropped.
pub open spec fn drop_game_body(username: Seq<u8>, player_number: u8) -> Seq<u8> {
    terminated(username) + seq![player_number]
}

/// Body with combined input bytes.
pub open spec fn game_data_body(data: Seq<u8>) -> Seq<u8> {
    empty_string() + le16((data.len() % 65536) as u16) + data
}

/// Body with a cache position.
pub open spec fn game_cache_body(position: u8) -> Seq<u8> {
    empty_string() + seq![position]
}

/// One player entry of a body.
pub open spec fn player_entry_bytes(entry: PlayerEntryModel) -> Seq<u8> {
    terminated(entry.username) + le32(entry.ping) + le16(entry.user_id) + seq![entry.conn_type]
}

/// All player entries of a body.
pub open spec fn player_entries_bytes(entries: Seq<PlayerEntryModel>) -> Seq<u8>
    decreases entries.len(),
{
    if entries.len() == 0 {
        Seq::empty()
    } else {
        player_entries_bytes(entries.drop_last()) + player_entry_bytes(entries.last())
    }
}

/// A count as it travels.
pub open spec fn count_bytes(n: nat) -> Seq<u8> {
    le32((n % 0x1_0000_0000) as u32)
}

/// Body that lists the players of a room.
pub open spec fn player_information_body(entries: Seq<PlayerEntryModel>) -> Seq<u8> {
    empty_string() + count_bytes(entries.len()) + player_entries_bytes(entries)
}

/// One user entry of a body.
pub open spec fn user_entry_bytes(entry: UserEntryModel) -> Seq<u8> {
    terminated(entry.username) + le32(entry.ping) + seq![entry.player_status] + le16(entry.user_id)
        + seq![entry.conn_type]
}

/// All user entries of a body.
pub open spec fn user_entries_bytes(entries: Seq<UserEntryModel>) -> Seq<u8>
    decreases entries.len(),
{
    if entries.len() == 0 {
        Seq::empty()
    } else {
        user_entries_bytes(entries.drop_last()) + user_entry_bytes(entries.last())
    }
}

/// The occupancy of a room: players, a slash, and the limit.
pub open spec fn occupancy(num_players: u8, max_players: u8) -> Seq<u8> {
    vstd::utf8::encode_utf8(
        crate::text::decimal(num_players as nat) + "/"@ + crate::text::decimal(max_players as nat),
    )
}

/// One room entry of a body.
pub open spec fn game_entry_bytes(entry: GameEntryModel) -> Seq<u8> {
    terminated(entry.game_name) + le32(entry.game_id) + terminated(entry.emulator_name)
        + terminated(entry.owner) + terminated(occupancy(entry.num_players, entry.max_players))
        + seq![entry.game_status]
}

/// All room entries of a body.
pub open spec fn game_entries_bytes(entries: Seq<GameEntryModel>) -> Seq<u8>
    decreases entries.len(),
{
    if entries.len() == 0 {
        Seq::empty()
    } else {
        game_entries_bytes(entries.drop_last()) + game_entry_bytes(entries.last())
    }
}

/// Body with the users and rooms of the lobby.
pub open spec fn server_status_body(
    users: Seq<UserEntryModel>,
    games: Seq<GameEntryModel>,
) -> Seq<u8> {
    empty_string() + count_bytes(users.len()) + count_bytes(games.len()) + user_entries_bytes(users)
        + game_entries_bytes(games)
}

/// Builds the handshake acknowledgement.
pub fn build_server_to_client_ack_packet() -> (data: Vec<u8>)
    ensures
        data@ == server_to_client_ack_body(),
{
    let mut data: Vec<u8> = Vec::new();
    put_u8(&mut data, 0);
    put_u32_le(&mut data, 0);
    put_u32_le(&mut data, 1);
    put_u32_le(&mut data, 2);
    put_u32_le(&mut data, 3);
    assert(data@ =~= server_to_client_ack_body());
    data
}

/// Builds a rejection of a login.
pub fn build_connection_rejected_packet(username: &[u8], user_id: u16, message: &[u8]) -> (data:
    Vec<u8>)
    ensures
        data@ == user_message_body(username@, user_id, message@),
{
    build_user_quit_packet(username, user_id, message)
}

/// Builds the notice that a user left the server.
pub fn build_user_quit_packet(username: &[u8], user_id: u16, message: &[u8]) -> (data: Vec<u8>)
    ensures
        data@ == user_message_body(username@, user_id, message@),
{
    let mut data: Vec<u8> = Vec::new();
    put_string(&mut data, username);
    put_u16_le(&mut data, user_id);
    put_string(&mut data, message);
    assert(data@ =~= user_message_body(username@, user_id, message@));
    data
}

/// Builds the notice that a user entered the lobby.
pub fn build_user_joined_packet(username: &[u8], user_id: u16, ping: u32, conn_type: u8) -> (data:
    Vec<u8>)
    ensures
        data@ == user_joined_body(username@, user_id, ping, conn_type),
{
    let mut data: Vec<u8> = Vec::new();
    put_string(&mut data, username);
    put_u16_le(&mut data, user_id);
    put_u32_le(&mut data, ping);
    put_u8(&mut data, conn_type);
    assert(data@ =~= user_joined_body(username@, user_id, ping, conn_type));
    data
}

/// Builds a chat line of the lobby.
pub fn build_global_chat_packet(username: &[u8], message: &[u8]) -> (data: Vec<u8>)
    ensures
        data@ == chat_body(username@, message@),
{
    let mut data: Vec<u8> = Vec::new();
    put_string(&mut data, username);
    put_string(&mut data, message);
    assert(data@ =~= chat_body(username@, message@));
    data
}

/// Builds a chat line of a room.
pub fn build_game_chat_packet(username: &[u8], message: &[u8]) -> (data: Vec<u8>)
    ensures
        data@ == chat_body(username@, message@),
{
    build_global_chat_packet(username, message)
}

/// Builds one line of server information: a chat line from the server.
pub fn build_server_information_packet(source: &[u8], line: &[u8]) -> (data: Vec<u8>)
    ensures
        data@ == chat_body(source@, line@),
{
    build_global_chat_packet(source, line)
}

/// Builds the announcement of a new room.
pub fn build_new_game_notification(
    username: &[u8],
    game_name: &[u8],
    emulator_name: &[u8],
    game_id: u32,
) -> (data: Vec<u8>)
    ensures
        data@ == new_game_body(username@, game_name@, emulator_name@, game_id),
{
    let mut data: Vec<u8> = Vec::new();
    put_string(&mut data, username);
    put_string(&mut data, game_name);
    put_string(&mut data, emulator_name);
    put_u32_le(&mut data, game_id);
    assert(data@ =~= new_game_body(username@, game_name@, emulator_name@, game_id));
    data
}

/// Builds the report of a room's state.
pub fn build_update_game_status_packet(
    game_id: u32,
    game_status: u8,
    num_players: u8,
    max_players: u8,
) -> (data: Vec<u8>)
    ensures
        data@ == game_status_body(game_id, game_status, num_players, max_players),
{
    let mut data: Vec<u8> = Vec::new();
    put_u8(&mut data, 0);
    put_u32_le(&mut data, game_id);
    put_u8(&mut data, game_status);
    put_u8(&mut data, num_players);
    put_u8(&mut data, max_players);
    assert(data@ =~= game_status_body(game_id, game_status, num_players, max_players));
    data
}

/// Builds the notice that a user joined a room.
pub fn build_join_game_packet(username: &[u8], ping: u32, user_id: u16, conn_type: u8) -> (data:
    Vec<u8>)
    ensures
        data@ == join_game_body(username@, ping, user_id, conn_type),
{
    let mut data: Vec<u8> = Vec::new();
    put_u8(&mut data, 0);
    put_u32_le(&mut data, 0);
    put_string(&mut data, username);
    put_u32_le(&mut data, ping);
    put_u16_le(&mut data, user_id);
    put_u8(&mut data, conn_type);
    assert(data@ =~= join_game_body(username@, ping, user_id, conn_type));
    data
}

/// Builds the notice that a user left a room.
pub fn build_quit_game_packet(username: &[u8], user_id: u16) -> (data: Vec<u8>)
    ensures
        data@ == quit_game_body(username@, user_id),
{
    let mut data: Vec<u8> = Vec::new();
    put_string(&mut data, username);
    put_u16_le(&mut data, user_id);
    assert(data@ =~= quit_game_body(username@, user_id));
    data
}

/// Builds the notice that a room closed.
pub fn build_close_game_packet(game_id: u32) -> (data: Vec<u8>)
    ensures
        data@ == close_game_body(game_id),
{
    let mut data: Vec<u8> = Vec::new();
    put_u8(&mut data, 0);
    put_u32_le(&mut data, game_id);
    assert(data@ =~= close_game_body(game_id));
    data
}

/// Builds the start of a game for one player.
pub fn build_start_game_packet(frame_delay: u16, player_number: u8, total_players: u8) -> (data:
    Vec<u8>)
    ensures
        data@ == start_game_body(frame_delay, player_number, total_players),
{
    let mut data: Vec<u8> = Vec::new();
    put_u8(&mut data, 0);
    put_u16_le(&mut data, frame_delay);
    put_u8(&mut data, player_number);
    put_u8(&mut data, total_players);
    assert(data@ =~= start_game_body(frame_delay, player_number, total_players));
    data
}

/// Builds the notice that a player dropped out of a game.
pub fn build_drop_game_packet(username: &[u8], player_number: u8) -> (data: Vec<u8>)
    ensures
        data@ == drop_game_body(username@, player_number),
{
    let mut data: Vec<u8> = Vec::new();
    put_string(&mut data, username);
    put_u8(&mut data, player_number);
    assert(data@ =~= drop_game_body(username@, player_number));
    data
}

/// Builds combined input bytes.
pub fn build_game_data_packet(game_data: &[u8]) -> (data: Vec<u8>)
    ensures
        data@ == game_data_body(game_data@),
{
    let mut data: Vec<u8> = Vec::new();
    put_u8(&mut data, 0);
    put_u16_le(&mut data, (game_data.len() % 65536) as u16);
    append_bytes(&mut data, game_data);
    assert(data@ =~= game_data_body(game_data@));
    data
}

/// Builds a cache position.
pub fn build_game_cache_packet(position: u8) -> (data: Vec<u8>)
    ensures
        data@ == game_cache_body(position),
{
    let mut data: Vec<u8> = Vec::new();
    put_u8(&mut data, 0);
    put_u8(&mut data, position);
    assert(data@ =~= game_cache_body(position));
    data
}

/// Builds the signal that every player is ready.
pub fn build_ready_to_play_packet() -> (data: Vec<u8>)
    ensures
        data@ == empty_string(),
{
    let mut data: Vec<u8> = Vec::new();
    put_u8(&mut data, 0);
    assert(data@ =~= empty_string());
    data
}

/// Appends a count.
fn put_count(data: &mut Vec<u8>, n: usize)
    ensures
        final(data)@ == old(data)@ + count_bytes(n as nat),
{
    put_u32_le(data, (n as u64 % 0x1_0000_0000) as u32);
}

/// The views of player entries.
pub open spec fn player_entries_view(entries: Seq<PlayerEntry>) -> Seq<PlayerEntryModel> {
    entries.map_values(|e: PlayerEntry| e@)
}

/// The views of user entries.
pub open spec fn user_entries_view(entries: Seq<UserEntry>) -> Seq<UserEntryModel> {
    entries.map_values(|e: UserEntry| e@)
}

/// The views of room entries.
pub open spec fn game_entries_view(entries: Seq<GameEntry>) -> Seq<GameEntryModel> {
    entries.map_values(|e: GameEntry| e@)
}

/// Builds the list of a room's players.
pub fn build_player_information_packet(entries: &[PlayerEntry]) -> (data: Vec<u8>)
    ensures
        data@ == player_information_body(player_entries_view(entries@)),
{
    let ghost all = player_entries_view(entries@);
    let mut data: Vec<u8> = Vec::new();
    put_u8(&mut data, 0);
    put_count(&mut data, entries.len());
    let ghost head = data@;
    assert(head =~= empty_string() + count_bytes(all.len()));
    let mut i: usize = 0;
    assert(all.take(0) =~= Seq::empty());
    assert(data@ =~= head + player_entries_bytes(all.take(0)));
    while i < entries.len()
        invariant
            i <= entries@.len(),
            all == player_entries_view(entries@),
            data@ == head + player_entries_bytes(all.take(i as int)),
        decreases entries.len() - i,
    {
        let ghost before = data@;
        let entry: &PlayerEntry = &entries[i];
        put_string(&mut data, entry.username.as_slice());
        put_u32_le(&mut data, entry.ping);
        put_u16_le(&mut data, entry.user_id);
        put_u8(&mut data, entry.conn_type);
        assert(data@ =~= before + player_entry_bytes(entry@));
        assert(all.take(i + 1).drop_last() =~= all.take(i as int));
        assert(all.take(i + 1).last() == entry@);
        i += 1;
        assert(data@ =~= head + player_entries_bytes(all.take(i as int)));
    }
    assert(all.take(i as int) =~= all);
    data
}

/// Appends one user entry.
fn put_user_entry(data: &mut Vec<u8>, entry: &UserEntry)
    ensures
        final(data)@ == old(data)@ + user_entry_bytes(entry@),
{
    put_string(data, entry.username.as_slice());
    put_u32_le(data, entry.ping);
    put_u8(data, entry.player_status);
    put_u16_le(data, entry.user_id);
    put_u8(data, entry.conn_type);
    assert(data@ =~= old(data)@ + user_entry_bytes(entry@));
}

/// The occupancy of a room as text.
fn occupancy_bytes(num_players: u8, max_players: u8) -> (text: Vec<u8>)
    ensures
        text@ == occupancy(num_players, max_players),
{
    let players: String = crate::text::decimal_string(num_players as u64);
    let limit: String = crate::text::decimal_string(max_players as u64);
    let text: String = players.concat("/").concat(limit.as_str());
    crate::text::text_bytes(text.as_str())
}

/// Appends one room entry.
fn put_game_entry(data: &mut Vec<u8>, entry: &GameEntry)
    ensures
        final(data)@ == old(data)@ + game_entry_bytes(entry@),
{
    put_string(data, entry.game_name.as_slice());
    put_u32_le(data, entry.game_id);
    put_string(data, entry.emulator_name.as_slice());
    put_string(data, entry.owner.as_slice());
    let seats: Vec<u8> = occupancy_bytes(entry.num_players, entry.max_players);
    put_string(data, seats.as_slice());
    put_u8(data, entry.game_status);
    assert(data@ =~= old(data)@ + game_entry_bytes(entry@));
}

/// Builds the snapshot of the lobby.
pub fn build_server_status_packet(users: &[UserEntry], games: &[GameEntry]) -> (data: Vec<u8>)
    ensures
        data@ == server_status_body(user_entries_view(users@), game_entries_view(games@)),
{
    let ghost all_users = user_entries_view(users@);
    let ghost all_games = game_entries_view(games@);
    let mut data: Vec<u8> = Vec::new();
    put_u8(&mut data, 0);
    put_count(&mut data, users.len());
    put_count(&mut data, games.len());
    let ghost head = data@;
    assert(head =~= empty_string() + count_bytes(all_users.len()) + count_bytes(all_games.len()));
    let mut i: usize = 0;
    assert(all_users.take(0) =~= Seq::empty());
    assert(data@ =~= head + user_entries_bytes(all_users.take(0)));
    while i < users.len()
        invariant
            i <= users@.len(),
            all_users == user_entries_view(users@),
            data@ == head + user_entries_bytes(all_users.take(i as int)),
        decreases users.len() - i,
    {
        put_user_entry(&mut data, &users[i]);
        assert(all_users.take(i + 1).drop_last() =~= all_users.take(i as int));
        assert(all_users.take(i + 1).last() == users@[i as int]@);
        i += 1;
        assert(data@ =~= head + user_entries_bytes(all_users.take(i as int)));
    }
    assert(all_users.take(i as int) =~= all_users);
    let ghost with_users = data@;
    let mut j: usize = 0;
    assert(all_games.take(0) =~= Seq::empty());
    assert(data@ =~= with_users + game_entries_bytes(all_games.take(0)));
    while j < games.len()
        invariant
            j <= games@.len(),
            all_games == game_entries_view(games@),
            data@ == with_users + game_entries_bytes(all_games.take(j as int)),
        decreases games.len() - j,
    {
        put_game_entry(&mut data, &games[j]);
        assert(all_games.take(j + 1).drop_last() =~= all_games.take(j as int));
        assert(all_games.take(j + 1).last() == games@[j as int]@);
        j += 1;
        assert(data@ =~= with_users + game_entries_bytes(all_games.take(j as int)));
    }
    assert(all_games.take(j as int) =~= all_games);
    data
}

} // verus!
