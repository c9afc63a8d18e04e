//! Clients, rooms and the maps that hold them.

use std::collections::HashMap;
use vstd::prelude::*;
use crate::bytes_util::{bytes_equal, copy_bytes};
use crate::config::Config;
use crate::map_util::keys_of;
#[allow(unused_imports)]
use crate::map_util::lists_keys;
#[allow(unused_imports)]
use crate::simplest_game_sync::delayed::DelayedModel;
use crate::simplest_game_sync::DelayedGameSync;
use crate::text::{bytes_for_log, lossy_string};
#[allow(unused_imports)]
use crate::text::{log_text, lossy_text};

verus! {

broadcast use vstd::std_specs::hash::group_hash_axioms;

pub const PLAYER_STATUS_PLAYING: u8 = 0;
pub const PLAYER_STATUS_IDLE: u8 = 1;
pub const PLAYER_STATUS_NET_SYNC: u8 = 2;

pub const GAME_STATUS_WAITING: u8 = 0;
pub const GAME_STATUS_PLAYING: u8 = 1;
pub const GAME_STATUS_NET_SYNC: u8 = 2;

/// The only connection type that may log in.
pub const CONN_TYPE_LAN: u8 = 1;

/// A logged-in client. Addresses are an IPv4 address times 65536 plus a port;
/// points in time are nanoseconds of one clock.
#[derive(Debug, Clone)]
pub struct ClientInfo {
    pub session_id: u128,
    /// Bytes as sent, to preserve the client's encoding.
    pub username: Vec<u8>,
    pub emulator_name: Vec<u8>,
    pub conn_type: u8,
    pub user_id: u16,
    /// Mean round trip of the login handshake, in milliseconds.
    pub ping: u32,
    pub player_status: u8,
    pub game_id: Option<u32>,
    /// When the last handshake acknowledgement was sent.
    pub last_ping_time: Option<u64>,
    pub ack_count: u16,
    /// Round trips of the handshake added up, in nanoseconds.
    pub ping_total: u128,
    /// When the last packet came, in seconds on the caller's clock.
    pub last_activity_secs: u64,
}

/// A client as a mathematical value.
#[verifier::ext_equal]
pub struct ClientModel {
    pub session_id: u128,
    pub username: Seq<u8>,
    pub emulator_name: Seq<u8>,
    pub conn_type: u8,
    pub user_id: u16,
    pub ping: u32,
    pub player_status: u8,
    pub game_id: Option<u32>,
    pub last_ping_time: Option<u64>,
    pub ack_count: u16,
    pub ping_total: u128,
    pub last_activity_secs: u64,
}

impl View for ClientInfo {
    type V = ClientModel;

    open spec fn view(&self) -> ClientModel {
        ClientModel {
            session_id: self.session_id,
            username: self.username@,
            emulator_name: self.emulator_name@,
            conn_type: self.conn_type,
            user_id: self.user_id,
            ping: self.ping,
            player_status: self.player_status,
            game_id: self.game_id,
            last_ping_time: self.last_ping_time,
            ack_count: self.ack_count,
            ping_total: self.ping_total,
            last_activity_secs: self.last_activity_secs,
        }
    }
}

impl ClientModel {
    /// A client of the LAN type whose round trips fit their sum.
    pub open spec fn wf(self) -> bool {
        &&& self.conn_type == CONN_TYPE_LAN
        &&& self.ping_total <= self.ack_count * u64::MAX
    }
}

impl ClientInfo {
    /// A copy of a client.
    pub fn duplicate(&self) -> (copy: ClientInfo)
        ensures
            copy@ == self@,
    {
        ClientInfo {
            session_id: self.session_id,
            username: copy_bytes(self.username.as_slice()),
            emulator_name: copy_bytes(self.emulator_name.as_slice()),
            conn_type: self.conn_type,
            user_id: self.user_id,
            ping: self.ping,
            player_status: self.player_status,
            game_id: self.game_id,
            last_ping_time: self.last_ping_time,
            ack_count: self.ack_count,
            ping_total: self.ping_total,
            last_activity_secs: self.last_activity_secs,
        }
    }

    /// The username as text, with invalid sequences replaced.
    pub fn username_str(&self) -> (text: String)
        ensures
            text@ == lossy_text(self.username@),
    {
        lossy_string(self.username.as_slice())
    }

    /// The emulator name as text, with invalid sequences replaced.
    pub fn emulator_name_str(&self) -> (text: String)
        ensures
            text@ == lossy_text(self.emulator_name@),
    {
        lossy_string(self.emulator_name.as_slice())
    }

    /// The username for a log line.
    pub fn username_for_log(&self) -> (text: String)
        ensures
            text@ == log_text(self.username@),
    {
        bytes_for_log(self.username.as_slice())
    }

    /// The emulator name for a log line.
    pub fn emulator_name_for_log(&self) -> (text: String)
        ensures
            text@ == log_text(self.emulator_name@),
    {
        bytes_for_log(self.emulator_name.as_slice())
    }
}

/// A player of a room. The position in the room's list is also the player's slot
/// in the lockstep game, which must not move while the game is live.
#[derive(Debug, Clone)]
pub struct GamePlayerInfo {
    pub addr: u64,
    pub username: Vec<u8>,
    pub user_id: u16,
    pub conn_type: u8,
    /// Silence, in nanoseconds, before a stall is assumed, where it differs from
    /// the default.
    pub input_stall_grace: Option<u64>,
    /// When the last input arrived.
    pub last_game_data_recv: Option<u64>,
    /// The player left the room while a game was live. The slot cannot move, so
    /// the entry stays until the game ends.
    pub left_room: bool,
    /// The player signalled that it is ready since the game started.
    pub ready: bool,
}

/// A player of a room as a mathematical value.
#[verifier::ext_equal]
pub struct PlayerModel {
    pub addr: u64,
    pub username: Seq<u8>,
    pub user_id: u16,
    pub conn_type: u8,
    pub input_stall_grace: Option<u64>,
    pub last_game_data_recv: Option<u64>,
    pub left_room: bool,
    pub ready: bool,
}

impl View for GamePlayerInfo {
    type V = PlayerModel;

    open spec fn view(&self) -> PlayerModel {
        PlayerModel {
            addr: self.addr,
            username: self.username@,
            user_id: self.user_id,
            conn_type: self.conn_type,
            input_stall_grace: self.input_stall_grace,
            last_game_data_recv: self.last_game_data_recv,
            left_room: self.left_room,
            ready: self.ready,
        }
    }
}

impl GamePlayerInfo {
    /// A copy of a player.
    pub fn duplicate(&self) -> (copy: GamePlayerInfo)
        ensures
            copy@ == self@,
    {
        GamePlayerInfo {
            addr: self.addr,
            username: copy_bytes(self.username.as_slice()),
            user_id: self.user_id,
            conn_type: self.conn_type,
            input_stall_grace: self.input_stall_grace,
            last_game_data_recv: self.last_game_data_recv,
            left_room: self.left_room,
            ready: self.ready,
        }
    }

    /// The username as text, with invalid sequences replaced.
    pub fn username_str(&self) -> (text: String)
        ensures
            text@ == lossy_text(self.username@),
    {
        lossy_string(self.username.as_slice())
    }

    /// The username for a log line.
    pub fn username_for_log(&self) -> (text: String)
        ensures
            text@ == log_text(self.username@),
    {
        bytes_for_log(self.username.as_slice())
    }
}

/// A room.
#[derive(Debug, Clone)]
pub struct GameInfo {
    pub game_id: u32,
    /// Bytes as sent, to preserve the client's encoding.
    pub game_name: Vec<u8>,
    pub emulator_name: Vec<u8>,
    pub owner: Vec<u8>,
    /// Who may start the game and kick players.
    pub owner_user_id: u16,
    pub num_players: u8,
    pub max_players: u8,
    pub game_status: u8,
    /// Players in slot order.
    pub players: Vec<GamePlayerInfo>,
    /// Frame synchronisation while a game is live.
    pub sync_manager: Option<DelayedGameSync>,
}

/// A room as a mathematical value.
#[verifier::ext_equal]
pub struct GameModel {
    pub game_id: u32,
    pub game_name: Seq<u8>,
    pub emulator_name: Seq<u8>,
    pub owner: Seq<u8>,
    pub owner_user_id: u16,
    pub num_players: u8,
    pub max_players: u8,
    pub game_status: u8,
    pub players: Seq<PlayerModel>,
    pub sync: Option<DelayedModel>,
}

/// The views of a list of players.
pub open spec fn players_view(players: Seq<GamePlayerInfo>) -> Seq<PlayerModel> {
    players.map_values(|p: GamePlayerInfo| p@)
}

impl View for GameInfo {
    type V = GameModel;

    open spec fn view(&self) -> GameModel {
        GameModel {
            game_id: self.game_id,
            game_name: self.game_name@,
            emulator_name: self.emulator_name@,
            owner: self.owner@,
            owner_user_id: self.owner_user_id,
            num_players: self.num_players,
            max_players: self.max_players,
            game_status: self.game_status,
            players: players_view(self.players@),
            sync: match self.sync_manager {
                Some(sync) => Some(sync@),
                None => None,
            },
        }
    }
}

/// A list of players holds an address.
pub open spec fn has_addr(players: Seq<PlayerModel>, addr: u64) -> bool {
    exists|i: int| 0 <= i < players.len() && #[trigger] players[i].addr == addr
}

/// No address occurs twice.
pub open spec fn distinct_addrs(players: Seq<PlayerModel>) -> bool {
    forall|i: int, j: int|
        0 <= i < j < players.len() ==> (#[trigger] players[i]).addr != (#[trigger] players[j]).addr
}

/// Every player has the LAN type.
pub open spec fn all_lan(players: Seq<PlayerModel>) -> bool {
    forall|i: int| 0 <= i < players.len() ==> (#[trigger] players[i]).conn_type == CONN_TYPE_LAN
}

/// Player `p` of a game sends one frame per packet and has no startup delay.
pub open spec fn lan_slot(sync: DelayedModel, p: int) -> bool {
    &&& sync.inner.sync.delays[p] == 1
    &&& sync.total_delays[p] == 0
    &&& sync.queues[p].len() == 0
}

/// A game in which every player sends one frame per packet, without startup
/// delay.
pub open spec fn lan_sync(sync: DelayedModel) -> bool {
    &&& sync.wf()
    &&& forall|p: int| 0 <= p < sync.players() ==> #[trigger] lan_slot(sync, p)
}

impl GameModel {
    /// What every room keeps: a live game exactly while it is playing, with a player
    /// for each of its slots, players of the LAN type only, and no player twice.
    pub open spec fn wf(self) -> bool {
        &&& self.game_status == GAME_STATUS_WAITING && self.sync is None || self.game_status
            == GAME_STATUS_PLAYING && self.sync is Some
        &&& distinct_addrs(self.players)
        &&& all_lan(self.players)
        &&& self.sync matches Some(sync) ==> lan_sync(sync) && sync.players()
            <= self.players.len()
    }

    /// The slot of an address, if it is in the room.
    pub open spec fn slot_of(self, addr: u64) -> Option<int> {
        if has_addr(self.players, addr) {
            Some(choose|i: int| 0 <= i < self.players.len() && #[trigger] self.players[i].addr
                == addr)
        } else {
            None
        }
    }
}

/// With distinct addresses a slot is the only one of its address.
pub proof fn lemma_slot_unique(game: GameModel, addr: u64, i: int)
    requires
        distinct_addrs(game.players),
        0 <= i < game.players.len(),
        game.players[i].addr == addr,
    ensures
        game.slot_of(addr) == Some(i),
{
    let j = choose|j: int| 0 <= j < game.players.len() && #[trigger] game.players[j].addr == addr;
    assert(game.players[j].addr == addr);
    if i < j {
        assert(game.players[i].addr != game.players[j].addr);
    } else if j < i {
        assert(game.players[j].addr != game.players[i].addr);
    }
}

impl GameInfo {
    /// The slot of an address, if it is in the room.
    pub fn slot_of(&self, addr: u64) -> (slot: Option<usize>)
        requires
            distinct_addrs(self@.players),
        ensures
            match slot {
                Some(i) => i < self.players@.len() && self@.slot_of(addr) == Some(i as int),
                None => self@.slot_of(addr) is None && !has_addr(self@.players, addr),
            },
    {
        let mut i: usize = 0;
        while i < self.players.len()
            invariant
                distinct_addrs(self@.players),
                i <= self.players@.len(),
                forall|j: int| 0 <= j < i ==> (#[trigger] self@.players[j]).addr != addr,
            decreases self.players.len() - i,
        {
            assert(self@.players[i as int] == self.players@[i as int]@);
            if self.players[i].addr == addr {
                proof {
                    lemma_slot_unique(self@, addr, i as int);
                }
                return Some(i);
            }
            i += 1;
        }
        None
    }

    /// The game name as text, with invalid sequences replaced.
    pub fn game_name_str(&self) -> (text: String)
        ensures
            text@ == lossy_text(self.game_name@),
    {
        lossy_string(self.game_name.as_slice())
    }

    /// The emulator name as text, with invalid sequences replaced.
    pub fn emulator_name_str(&self) -> (text: String)
        ensures
            text@ == lossy_text(self.emulator_name@),
    {
        lossy_string(self.emulator_name.as_slice())
    }

    /// The owner's name as text, with invalid sequences replaced.
    pub fn owner_str(&self) -> (text: String)
        ensures
            text@ == lossy_text(self.owner@),
    {
        lossy_string(self.owner.as_slice())
    }

    /// The game name for a log line.
    pub fn game_name_for_log(&self) -> (text: String)
        ensures
            text@ == log_text(self.game_name@),
    {
        bytes_for_log(self.game_name.as_slice())
    }

    /// The emulator name for a log line.
    pub fn emulator_name_for_log(&self) -> (text: String)
        ensures
            text@ == log_text(self.emulator_name@),
    {
        bytes_for_log(self.emulator_name.as_slice())
    }

    /// The owner's name for a log line.
    pub fn owner_for_log(&self) -> (text: String)
        ensures
            text@ == log_text(self.owner@),
    {
        bytes_for_log(self.owner.as_slice())
    }
}

/// Why a request fails.
#[derive(Debug, Clone, Copy, PartialEq, Eq, Structural)]
pub enum ServerError {
    /// The sender is not logged in.
    ClientNotFound,
    /// The sender is in no room.
    NotInGame,
    /// The room does not exist.
    GameNotFound,
    /// No game is live in the room.
    SyncNotInitialized,
    /// A slot of the live game has no player in the room.
    InvalidPlayerId { player_id: usize, player_count: usize },
    /// The client refers to a cache position that holds nothing.
    CacheMiss { player_id: usize, position: u8 },
}

/// The state of the server as a mathematical value.
#[verifier::ext_equal]
pub struct ServerModel {
    pub by_addr: Map<u64, u128>,
    pub by_id: Map<u128, ClientModel>,
    pub games: Map<u32, GameModel>,
    pub next_game_id: u32,
    pub next_user_id: u16,
    /// The configuration that the server was made with.
    pub config: Config,
}

impl ServerModel {
    /// What the server keeps at all times.
    pub open spec fn wf(self) -> bool {
        &&& forall|id: u128| self.by_id.dom().contains(id) ==> (#[trigger] self.by_id[id]).wf()
        &&& forall|id: u32|
            self.games.dom().contains(id) ==> (#[trigger] self.games[id]).wf()
        &&& forall|id: u32|
            self.games.dom().contains(id) ==> (#[trigger] self.games[id]).game_id == id
    }

    /// The client at an address.
    pub open spec fn client(self, addr: u64) -> Option<ClientModel> {
        if self.by_addr.dom().contains(addr) && self.by_id.dom().contains(self.by_addr[addr]) {
            Some(self.by_id[self.by_addr[addr]])
        } else {
            None
        }
    }

    /// A room.
    pub open spec fn game(self, game_id: u32) -> Option<GameModel> {
        if self.games.dom().contains(game_id) {
            Some(self.games[game_id])
        } else {
            None
        }
    }

    /// The state with another value for the client at an address.
    pub open spec fn with_client(self, addr: u64, client: ClientModel) -> ServerModel {
        ServerModel { by_id: self.by_id.insert(self.by_addr[addr], client), ..self }
    }

    /// The state with a client added at an address.
    pub open spec fn with_new_client(self, addr: u64, client: ClientModel) -> ServerModel {
        ServerModel {
            by_id: self.by_id.insert(client.session_id, client),
            by_addr: self.by_addr.insert(addr, client.session_id),
            ..self
        }
    }

    /// The state without the client at an address.
    pub open spec fn without_client(self, addr: u64) -> ServerModel {
        if self.by_addr.dom().contains(addr) {
            ServerModel {
                by_id: self.by_id.remove(self.by_addr[addr]),
                by_addr: self.by_addr.remove(addr),
                ..self
            }
        } else {
            self
        }
    }

    /// The state with a room added or replaced.
    pub open spec fn with_game(self, game_id: u32, game: GameModel) -> ServerModel {
        ServerModel { games: self.games.insert(game_id, game), ..self }
    }

    /// The state without a room.
    pub open spec fn without_game(self, game_id: u32) -> ServerModel {
        ServerModel { games: self.games.remove(game_id), ..self }
    }

    /// The counter that follows a room number.
    pub open spec fn after_game_id(self) -> ServerModel {
        ServerModel { next_game_id: next_number32(self.next_game_id), ..self }
    }

    /// The counter that follows a user number.
    pub open spec fn after_user_id(self) -> ServerModel {
        ServerModel { next_user_id: next_number16(self.next_user_id), ..self }
    }

    /// A session with this username.
    pub open spec fn named(self, id: u128, username: Seq<u8>) -> bool {
        self.by_id.dom().contains(id) && self.by_id[id].username == username
    }

    /// `found` is the address of a session with this username. Where several
    /// sessions have the name, or one has it without an address, which is found
    /// depends on the order in which the map is walked.
    pub open spec fn username_found(self, username: Seq<u8>, found: Option<u64>) -> bool {
        match found {
            Some(addr) => self.by_addr.dom().contains(addr) && self.named(
                self.by_addr[addr],
                username,
            ),
            None => (forall|id: u128| !#[trigger] self.named(id, username)) || (exists|id: u128|
                #[trigger] self.named(id, username) && !self.by_addr.values().contains(id)),
        }
    }

    /// `found` is the address of a client with this user number. Where several
    /// clients have it, which is found depends on the order in which the map is
    /// walked.
    pub open spec fn user_id_found(self, user_id: u16, found: Option<u64>) -> bool {
        match found {
            Some(addr) => self.is_user(addr, user_id),
            None => forall|addr: u64| !#[trigger] self.is_user(addr, user_id),
        }
    }

    /// The client at an address has this user number.
    pub open spec fn is_user(self, addr: u64, user_id: u16) -> bool {
        self.client(addr) matches Some(client) && client.user_id == user_id
    }
}

/// The 32-bit number after another; it wraps around.
pub open spec fn next_number32(n: u32) -> u32 {
    if n == u32::MAX {
        0
    } else {
        (n + 1) as u32
    }
}

/// The 16-bit number after another; it wraps around.
pub open spec fn next_number16(n: u16) -> u16 {
    if n == u16::MAX {
        0
    } else {
        (n + 1) as u16
    }
}

/// The label values of a game's metrics. `game_uid` is for observation only: room
/// numbers start anew with the server, and it keeps the series of different runs
/// apart.
#[derive(Debug, Clone)]
pub struct GameMetricLabels {
    pub game_uid: String,
    pub game_name: String,
    pub emulator_name: String,
}

impl GameInfo {
    /// The label values of this game under an identifier: its names as text that is
    /// safe to show.
    pub fn metric_labels(&self, game_uid: String) -> (labels: GameMetricLabels)
        ensures
            labels.game_uid@ == game_uid@,
            labels.game_name@ == log_text(self.game_name@),
            labels.emulator_name@ == log_text(self.emulator_name@),
    {
        GameMetricLabels {
            game_uid,
            game_name: self.game_name_for_log(),
            emulator_name: self.emulator_name_for_log(),
        }
    }
}

/// The state of the server: who is logged in and which rooms are open.
#[derive(Debug)]
pub struct AppState {
    clients_by_addr: HashMap<u64, u128>,
    clients_by_id: HashMap<u128, ClientInfo>,
    games: HashMap<u32, GameInfo>,
    next_game_id: u32,
    next_user_id: u16,
    config: Config,
}

/// The views of the clients of a map.
spec fn clients_view(clients: Map<u128, ClientInfo>) -> Map<u128, ClientModel> {
    clients.map_values(|c: ClientInfo| c@)
}

/// The views of the rooms of a map.
spec fn games_view(games: Map<u32, GameInfo>) -> Map<u32, GameModel> {
    games.map_values(|g: GameInfo| g@)
}

impl View for AppState {
    type V = ServerModel;

    closed spec fn view(&self) -> ServerModel {
        ServerModel {
            by_addr: self.clients_by_addr@,
            by_id: clients_view(self.clients_by_id@),
            games: games_view(self.games@),
            next_game_id: self.next_game_id,
            next_user_id: self.next_user_id,
            config: self.config,
        }
    }
}

impl AppState {
    /// A server without clients and rooms. Rooms and users are numbered from 1.
    pub fn new(config: Config) -> (state: Self)
        ensures
            state@.wf(),
            state@ == (ServerModel {
                by_addr: Map::empty(),
                by_id: Map::empty(),
                games: Map::empty(),
                next_game_id: 1,
                next_user_id: 1,
                config,
            }),
    {
        let state = Self {
            clients_by_addr: HashMap::new(),
            clients_by_id: HashMap::new(),
            games: HashMap::new(),
            next_game_id: 1,
            next_user_id: 1,
            config,
        };
        assert(state@.by_id =~= Map::empty());
        assert(state@.games =~= Map::empty());
        state
    }

    /// The configuration that the server was made with.
    pub fn config(&self) -> (config: &Config)
        ensures
            *config == self@.config,
    {
        &self.config
    }

    /// Takes the next room number.
    pub fn next_game_id(&mut self) -> (id: u32)
        ensures
            id == old(self)@.next_game_id,
            final(self)@ == old(self)@.after_game_id(),
    {
        let id: u32 = self.next_game_id;
        self.next_game_id = if id == u32::MAX {
            0
        } else {
            id + 1
        };
        id
    }

    /// Takes the next user number.
    pub fn next_user_id(&mut self) -> (id: u16)
        ensures
            id == old(self)@.next_user_id,
            final(self)@ == old(self)@.after_user_id(),
    {
        let id: u16 = self.next_user_id;
        self.next_user_id = if id == u16::MAX {
            0
        } else {
            id + 1
        };
        id
    }

    /// A copy of the client at an address.
    pub fn get_client(&self, addr: u64) -> (client: Option<ClientInfo>)
        ensures
            match client {
                Some(info) => self@.client(addr) == Some(info@),
                None => self@.client(addr) is None,
            },
    {
        match self.clients_by_addr.get(&addr) {
            Some(session_id) => match self.clients_by_id.get(session_id) {
                Some(client) => Some(client.duplicate()),
                None => None,
            },
            None => None,
        }
    }

    /// Adds a client at an address.
    pub fn add_client(&mut self, addr: u64, client: ClientInfo)
        ensures
            final(self)@ == old(self)@.with_new_client(addr, client@),
    {
        let ghost before = self@;
        let session_id: u128 = client.session_id;
        let ghost added = client@;
        self.clients_by_id.insert(session_id, client);
        self.clients_by_addr.insert(addr, session_id);
        assert(self@ =~= before.with_new_client(addr, added));
    }

    /// Removes the client at an address.
    pub fn remove_client(&mut self, addr: u64) -> (client: Option<ClientInfo>)
        ensures
            final(self)@ == old(self)@.without_client(addr),
            match client {
                Some(info) => old(self)@.client(addr) == Some(info@),
                None => old(self)@.client(addr) is None,
            },
    {
        let ghost before = self@;
        match self.clients_by_addr.remove(&addr) {
            Some(session_id) => {
                let client = self.clients_by_id.remove(&session_id);
                assert(self@ =~= before.without_client(addr));
                client
            },
            None => {
                assert(self@ =~= before.without_client(addr));
                None
            },
        }
    }

    /// Replaces the client at an address.
    pub fn update_client(&mut self, addr: u64, client: ClientInfo) -> (result: Result<
        (),
        ServerError,
    >)
        ensures
            old(self)@.client(addr) is Some ==> {
                &&& result == Ok::<(), ServerError>(())
                &&& final(self)@ == old(self)@.with_client(addr, client@)
            },
            old(self)@.client(addr) is None ==> {
                &&& result == Err::<(), ServerError>(ServerError::ClientNotFound)
                &&& final(self)@ == old(self)@
            },
    {
        let ghost before = self@;
        let ghost changed = client@;
        match self.clients_by_addr.get(&addr) {
            Some(session_id) => {
                let id: u128 = *session_id;
                if self.clients_by_id.contains_key(&id) {
                    self.clients_by_id.insert(id, client);
                    assert(self@ =~= before.with_client(addr, changed));
                    Ok(())
                } else {
                    Err(ServerError::ClientNotFound)
                }
            },
            None => Err(ServerError::ClientNotFound),
        }
    }

    /// Notes when a client was last heard of.
    pub fn update_client_activity(&mut self, addr: u64, secs: u64)
        ensures
            final(self)@ == match old(self)@.client(addr) {
                Some(client) => old(self)@.with_client(
                    addr,
                    ClientModel { last_activity_secs: secs, ..client },
                ),
                None => old(self)@,
            },
    {
        if let Some(client) = self.get_client(addr) {
            let mut client = client;
            client.last_activity_secs = secs;
            let _ = self.update_client(addr, client);
        }
    }

    /// All client addresses, each once.
    pub fn get_all_client_addrs(&self) -> (addrs: Vec<u64>)
        ensures
            lists_keys(addrs@, self@.by_addr),
    {
        keys_of(&self.clients_by_addr)
    }

    /// All room numbers, each once.
    pub fn all_game_ids(&self) -> (ids: Vec<u32>)
        ensures
            lists_keys(ids@, self@.games),
    {
        let ids: Vec<u32> = keys_of(&self.games);
        assert(self@.games.dom() =~= self.games@.dom());
        ids
    }

    /// Number of sessions.
    pub fn client_count(&self) -> (n: usize)
        ensures
            n == self@.by_id.dom().len(),
    {
        assert(self@.by_id.dom() =~= self.clients_by_id@.dom());
        self.clients_by_id.len()
    }

    /// Number of rooms.
    pub fn game_count(&self) -> (n: usize)
        ensures
            n == self@.games.dom().len(),
    {
        assert(self@.games.dom() =~= self.games@.dom());
        self.games.len()
    }

    /// Finds a client with a username, and its address.
    pub fn find_client_by_username(&self, username: &[u8]) -> (found: Option<(u64, ClientInfo)>)
        ensures
            self@.username_found(username@, found_addr(found)),
            found matches Some((addr, client)) ==> self@.client(addr) == Some(client@),
    {
        let ids: Vec<u128> = keys_of(&self.clients_by_id);
        let mut i: usize = 0;
        while i < ids.len()
            invariant
                i <= ids@.len(),
                lists_keys(ids@, self.clients_by_id@),
                forall|j: int| 0 <= j < i ==> !self@.named(#[trigger] ids@[j], username@),
            decreases ids.len() - i,
        {
            let id: u128 = ids[i];
            assert(ids@.to_set().contains(id));
            if let Some(client) = self.clients_by_id.get(&id) {
                if bytes_equal(client.username.as_slice(), username) {
                    assert(self@.named(id, username@));
                    return match self.address_of(id) {
                        Some(addr) => Some((addr, client.duplicate())),
                        None => None,
                    };
                }
            }
            i += 1;
        }
        proof {
            assert forall|id: u128| !#[trigger] self@.named(id, username@) by {
                if self@.by_id.dom().contains(id) {
                    assert(ids@.to_set().contains(id));
                    let j = choose|j: int| 0 <= j < ids@.len() && ids@[j] == id;
                    assert(!self@.named(ids@[j], username@));
                }
            }
        }
        None
    }

    /// An address of a session.
    fn address_of(&self, session_id: u128) -> (found: Option<u64>)
        ensures
            match found {
                Some(addr) => self@.by_addr.dom().contains(addr) && self@.by_addr[addr]
                    == session_id,
                None => !self@.by_addr.values().contains(session_id),
            },
    {
        let addrs: Vec<u64> = keys_of(&self.clients_by_addr);
        let mut i: usize = 0;
        while i < addrs.len()
            invariant
                i <= addrs@.len(),
                lists_keys(addrs@, self.clients_by_addr@),
                forall|j: int|
                    0 <= j < i ==> self@.by_addr[#[trigger] addrs@[j]] != session_id,
            decreases addrs.len() - i,
        {
            let addr: u64 = addrs[i];
            assert(addrs@.to_set().contains(addr));
            if let Some(id) = self.clients_by_addr.get(&addr) {
                if *id == session_id {
                    return Some(addr);
                }
            }
            i += 1;
        }
        proof {
            if self@.by_addr.values().contains(session_id) {
                let addr = choose|addr: u64|
                    self@.by_addr.dom().contains(addr) && #[trigger] self@.by_addr[addr]
                        == session_id;
                assert(addrs@.to_set().contains(addr));
                let j = choose|j: int| 0 <= j < addrs@.len() && addrs@[j] == addr;
                assert(self@.by_addr[addrs@[j]] != session_id);
            }
        }
        None
    }

    /// Finds and removes a client with a username. Used to evict stale sessions
    /// when a user reconnects from a new address.
    pub fn remove_client_by_username(&mut self, username: &[u8]) -> (removed: Option<
        (u64, ClientInfo),
    >)
        ensures
            old(self)@.username_found(username@, found_addr(removed)),
            match removed {
                Some((addr, client)) => {
                    &&& old(self)@.client(addr) == Some(client@)
                    &&& final(self)@ == old(self)@.without_client(addr)
                },
                None => final(self)@ == old(self)@,
            },
    {
        match self.find_client_by_username(username) {
            Some((addr, client)) => {
                let _ = self.remove_client(addr);
                Some((addr, client))
            },
            None => None,
        }
    }

    /// Finds a client by its user number, and its address.
    pub fn find_client_by_user_id(&self, user_id: u16) -> (found: Option<(u64, ClientInfo)>)
        ensures
            self@.user_id_found(user_id, found_addr(found)),
            found matches Some((addr, client)) ==> self@.client(addr) == Some(client@),
    {
        let addrs: Vec<u64> = keys_of(&self.clients_by_addr);
        let mut i: usize = 0;
        while i < addrs.len()
            invariant
                i <= addrs@.len(),
                lists_keys(addrs@, self.clients_by_addr@),
                forall|j: int| 0 <= j < i ==> !self@.is_user(#[trigger] addrs@[j], user_id),
            decreases addrs.len() - i,
        {
            let addr: u64 = addrs[i];
            if let Some(client) = self.get_client(addr) {
                if client.user_id == user_id {
                    return Some((addr, client));
                }
            }
            i += 1;
        }
        proof {
            assert forall|addr: u64| !#[trigger] self@.is_user(addr, user_id) by {
                if self@.is_user(addr, user_id) {
                    assert(addrs@.to_set().contains(addr));
                    let j = choose|j: int| 0 <= j < addrs@.len() && addrs@[j] == addr;
                    assert(!self@.is_user(addrs@[j], user_id));
                }
            }
        }
        None
    }

    /// Adds a room, or replaces it.
    pub fn add_game(&mut self, game_id: u32, game: GameInfo)
        ensures
            final(self)@ == old(self)@.with_game(game_id, game@),
    {
        let ghost before = self@;
        let ghost added = game@;
        self.games.insert(game_id, game);
        assert(self@ =~= before.with_game(game_id, added));
    }

    /// A room.
    pub fn get_game(&self, game_id: u32) -> (game: Option<&GameInfo>)
        ensures
            match game {
                Some(info) => self@.game(game_id) == Some(info@),
                None => self@.game(game_id) is None,
            },
    {
        self.games.get(&game_id)
    }

    /// Removes a room.
    pub fn remove_game(&mut self, game_id: u32) -> (game: Option<GameInfo>)
        ensures
            final(self)@ == old(self)@.without_game(game_id),
            match game {
                Some(info) => old(self)@.game(game_id) == Some(info@),
                None => old(self)@.game(game_id) is None,
            },
    {
        let ghost before = self@;
        let game = self.games.remove(&game_id);
        assert(self@ =~= before.without_game(game_id));
        game
    }
}

/// The address of a client that was found.
pub open spec fn found_addr(found: Option<(u64, ClientInfo)>) -> Option<u64> {
    match found {
        Some((addr, _)) => Some(addr),
        None => None,
    }
}

} // verus!
