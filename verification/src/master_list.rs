//! Announcing the server to public lists.

use vstd::prelude::*;
use crate::config::{Config, MasterEndpoint, MasterListConfig, MasterProtocol};
#[allow(unused_imports)]
use crate::map_util::lists_keys;
use crate::state::{AppState, GAME_STATUS_WAITING};
#[allow(unused_imports)]
use crate::state::{GameModel, ServerModel};
use crate::text::{decimal_string, trim};
#[allow(unused_imports)]
use crate::text::{decimal, lossy_text, trimmed};

verus! {

/// A room that waits for players, as lists show it.
pub struct WaitingGame {
    pub id: u32,
    pub name: String,
    pub owner: String,
    pub emulator: String,
    pub players: usize,
    pub max_players: u8,
}

/// A waiting room as a mathematical value.
#[verifier::ext_equal]
pub struct WaitingModel {
    pub id: u32,
    pub name: Seq<char>,
    pub owner: Seq<char>,
    pub emulator: Seq<char>,
    pub players: nat,
    pub max_players: u8,
}

impl View for WaitingGame {
    type V = WaitingModel;

    open spec fn view(&self) -> WaitingModel {
        WaitingModel {
            id: self.id,
            name: self.name@,
            owner: self.owner@,
            emulator: self.emulator@,
            players: self.players as nat,
            max_players: self.max_players,
        }
    }
}

/// The views of a list of waiting rooms.
pub open spec fn waiting_view(games: Seq<WaitingGame>) -> Seq<WaitingModel> {
    games.map_values(|g: WaitingGame| g@)
}

/// A room as lists show it.
pub open spec fn as_waiting(id: u32, game: GameModel) -> WaitingModel {
    WaitingModel {
        id,
        name: lossy_text(game.game_name),
        owner: lossy_text(game.owner),
        emulator: lossy_text(game.emulator_name),
        players: game.players.len(),
        max_players: game.max_players,
    }
}

/// The rooms among these that wait for players.
pub open spec fn waiting_among(m: ServerModel, ids: Seq<u32>) -> Seq<WaitingModel>
    decreases ids.len(),
{
    if ids.len() == 0 {
        Seq::empty()
    } else {
        let before = waiting_among(m, ids.drop_last());
        let game = m.games[ids.last()];
        if game.game_status == GAME_STATUS_WAITING {
            before.push(as_waiting(ids.last(), game))
        } else {
            before
        }
    }
}

/// What is reported of the server: how many users and rooms there are, and the
/// rooms that wait for players, in the order in which the map is walked.
pub fn collect(state: &AppState) -> (collected: (usize, usize, Vec<WaitingGame>))
    ensures
        collected.0 == state@.by_id.dom().len(),
        collected.1 == state@.games.dom().len(),
        exists|ids: Seq<u32>|
            #![trigger lists_keys(ids, state@.games)]
            lists_keys(ids, state@.games) && waiting_view(collected.2@) == waiting_among(
                state@,
                ids,
            ),
{
    let ghost m = state@;
    let users: usize = state.client_count();
    let total_games: usize = state.game_count();
    let ids: Vec<u32> = state.all_game_ids();
    let mut waiting: Vec<WaitingGame> = Vec::new();
    let mut i: usize = 0;
    assert(ids@.take(0) =~= Seq::empty());
    assert(waiting_view(waiting@) =~= Seq::empty());
    while i < ids.len()
        invariant
            i <= ids@.len(),
            m == state@,
            lists_keys(ids@, m.games),
            waiting_view(waiting@) == waiting_among(m, ids@.take(i as int)),
        decreases ids.len() - i,
    {
        let id: u32 = ids[i];
        assert(ids@.to_set().contains(id));
        assert(ids@.take(i + 1).drop_last() =~= ids@.take(i as int));
        assert(ids@.take(i + 1).last() == id);
        if let Some(game) = state.get_game(id) {
            if game.game_status == GAME_STATUS_WAITING {
                let entry = WaitingGame {
                    id,
                    name: game.game_name_str(),
                    owner: game.owner_str(),
                    emulator: game.emulator_name_str(),
                    players: game.players.len(),
                    max_players: game.max_players,
                };
                assert(entry@ =~= as_waiting(id, game@));
                let ghost listed = waiting@;
                waiting.push(entry);
                assert(waiting_view(waiting@) =~= waiting_view(listed).push(entry@));
            }
        }
        i += 1;
    }
    assert(ids@.take(i as int) =~= ids@);
    (users, total_games, waiting)
}

/// A request to a list: the URL, the query parameters in order, and the headers.
pub struct TouchRequest {
    pub url: String,
    pub query: Vec<(String, String)>,
    pub headers: Vec<(String, String)>,
}

/// A request as a mathematical value.
#[verifier::ext_equal]
pub struct TouchModel {
    pub url: Seq<char>,
    pub query: Seq<(Seq<char>, Seq<char>)>,
    pub headers: Seq<(Seq<char>, Seq<char>)>,
}

/// The views of a list of named values.
pub open spec fn pairs_view(pairs: Seq<(String, String)>) -> Seq<(Seq<char>, Seq<char>)> {
    pairs.map_values(|p: (String, String)| (p.0@, p.1@))
}

impl View for TouchRequest {
    type V = TouchModel;

    open spec fn view(&self) -> TouchModel {
        TouchModel {
            url: self.url@,
            query: pairs_view(self.query@),
            headers: pairs_view(self.headers@),
        }
    }
}

/// A waiting room in a header for the Kaillera list: number, name, owner,
/// emulator and players, each with a bar behind it.
pub open spec fn kaillera_entry(game: WaitingModel) -> Seq<char> {
    decimal(game.id as nat) + "|"@ + game.name + "|"@ + game.owner + "|"@ + game.emulator + "|"@
        + decimal(game.players) + "|"@
}

/// A waiting room in a header for an EmuLinker list: name, owner, emulator and
/// occupancy, each with a bar behind it.
pub open spec fn emulinker_entry(game: WaitingModel) -> Seq<char> {
    game.name + "|"@ + game.owner + "|"@ + game.emulator + "|"@ + decimal(game.players) + "/"@
        + decimal(game.max_players as nat) + "|"@
}

/// The header for the waiting rooms.
pub open spec fn waiting_header(games: Seq<WaitingModel>, protocol: MasterProtocol) -> Seq<char>
    decreases games.len(),
{
    if games.len() == 0 {
        Seq::empty()
    } else {
        let entry = match protocol {
            MasterProtocol::Kaillera => kaillera_entry(games.last()),
            MasterProtocol::Emulinker => emulinker_entry(games.last()),
        };
        waiting_header(games.drop_last(), protocol) + entry
    }
}

/// What is announced, as numbers and texts.
#[verifier::ext_equal]
pub struct Announcement {
    pub name: Seq<char>,
    pub address: Seq<char>,
    pub location: Seq<char>,
    pub website: Seq<char>,
    pub port: nat,
    pub users: nat,
    pub max_users: nat,
    pub games: nat,
    pub max_games: nat,
    pub version: Seq<char>,
    pub waiting: Seq<WaitingModel>,
}

/// The request to a list of the Kaillera kind.
pub open spec fn kaillera_touch(url: Seq<char>, a: Announcement) -> TouchModel {
    TouchModel {
        url,
        query: seq![
            ("servername"@, a.name),
            ("port"@, decimal(a.port)),
            ("nbusers"@, decimal(a.users)),
            ("maxconn"@, decimal(a.max_users)),
            ("version"@, a.version),
            ("nbgames"@, decimal(a.games)),
            ("location"@, a.location),
            ("ip"@, a.address),
            ("url"@, a.website),
        ],
        headers: seq![
            ("Kaillera-games"@, Seq::<char>::empty()),
            ("Kaillera-wgames"@, waiting_header(a.waiting, MasterProtocol::Kaillera)),
        ],
    }
}

/// The request to a list of the EmuLinker kind.
pub open spec fn emulinker_touch(url: Seq<char>, a: Announcement) -> TouchModel {
    TouchModel {
        url,
        query: seq![
            ("serverName"@, a.name),
            ("ipAddress"@, a.address),
            ("location"@, a.location),
            ("website"@, a.website),
            ("port"@, decimal(a.port)),
            ("numUsers"@, decimal(a.users)),
            ("maxUsers"@, decimal(a.max_users)),
            ("numGames"@, decimal(a.games)),
            ("maxGames"@, decimal(a.max_games)),
            ("version"@, a.version),
        ],
        headers: seq![
            ("Waiting-games"@, waiting_header(a.waiting, MasterProtocol::Emulinker)),
        ],
    }
}

/// Where an endpoint is reached.
pub open spec fn endpoint_url(endpoint: MasterEndpoint) -> Seq<char> {
    match endpoint {
        MasterEndpoint::Preset { preset } => preset.address(),
        MasterEndpoint::Custom { url, .. } => url@,
    }
}

/// What an endpoint understands.
pub open spec fn endpoint_protocol(endpoint: MasterEndpoint) -> MasterProtocol {
    match endpoint {
        MasterEndpoint::Preset { preset } => preset.speaks(),
        MasterEndpoint::Custom { protocol, .. } => protocol,
    }
}

/// The request to an endpoint.
pub open spec fn touch(endpoint: MasterEndpoint, a: Announcement) -> TouchModel {
    match endpoint_protocol(endpoint) {
        MasterProtocol::Kaillera => kaillera_touch(endpoint_url(endpoint), a),
        MasterProtocol::Emulinker => emulinker_touch(endpoint_url(endpoint), a),
    }
}

/// What is announced of a server.
pub open spec fn announcement(
    config: Config,
    server_address: Seq<char>,
    version: Seq<char>,
    users: nat,
    games: nat,
    waiting: Seq<WaitingModel>,
) -> Announcement {
    let ml = config.master_list;
    Announcement {
        name: ml.server_name@,
        address: server_address,
        location: ml.server_location@,
        website: ml.server_website@,
        port: config.control_port as nat,
        users,
        max_users: ml.max_users as nat,
        games,
        max_games: ml.max_games as nat,
        version,
        waiting,
    }
}

/// Adds a named value.
fn add_pair(pairs: &mut Vec<(String, String)>, name: &str, value: &str)
    ensures
        pairs_view(final(pairs)@) == pairs_view(old(pairs)@).push((name@, value@)),
{
    let ghost before = pairs@;
    let pair: (String, String) = (name.to_owned(), value.to_owned());
    pairs.push(pair);
    assert(pairs_view(pairs@) =~= pairs_view(before).push((name@, value@)));
}

/// A waiting room in a header for the Kaillera list.
fn kaillera_entry_text(game: &WaitingGame) -> (text: String)
    ensures
        text@ == kaillera_entry(game@),
{
    let players: String = decimal_string(game.players as u64);
    decimal_string(game.id as u64).concat("|").concat(game.name.as_str()).concat("|").concat(
        game.owner.as_str(),
    ).concat("|").concat(game.emulator.as_str()).concat("|").concat(players.as_str()).concat("|")
}

/// A waiting room in a header for an EmuLinker list.
fn emulinker_entry_text(game: &WaitingGame) -> (text: String)
    ensures
        text@ == emulinker_entry(game@),
{
    let players: String = decimal_string(game.players as u64);
    let limit: String = decimal_string(game.max_players as u64);
    game.name.clone().concat("|").concat(game.owner.as_str()).concat("|").concat(
        game.emulator.as_str(),
    ).concat("|").concat(players.as_str()).concat("/").concat(limit.as_str()).concat("|")
}

/// The header for the waiting rooms.
fn waiting_header_text(games: &[WaitingGame], protocol: MasterProtocol) -> (text: String)
    ensures
        text@ == waiting_header(waiting_view(games@), protocol),
{
    let ghost all = waiting_view(games@);
    let mut text: String = String::new();
    let mut i: usize = 0;
    assert(all.take(0) =~= Seq::empty());
    while i < games.len()
        invariant
            i <= games@.len(),
            all == waiting_view(games@),
            text@ == waiting_header(all.take(i as int), protocol),
        decreases games.len() - i,
    {
        assert(all.take(i + 1).drop_last() =~= all.take(i as int));
        assert(all.take(i + 1).last() == games@[i as int]@);
        let entry: String = match protocol {
            MasterProtocol::Kaillera => kaillera_entry_text(&games[i]),
            MasterProtocol::Emulinker => emulinker_entry_text(&games[i]),
        };
        text.append(entry.as_str());
        i += 1;
    }
    assert(all.take(i as int) =~= all);
    text
}

/// The request to a list of the Kaillera kind.
pub fn touch_kaillera(
    url: &str,
    config: &Config,
    server_address: &str,
    version: &str,
    users: usize,
    games: usize,
    waiting: &[WaitingGame],
) -> (request: TouchRequest)
    ensures
        request@ == kaillera_touch(
            url@,
            announcement(
                *config,
                server_address@,
                version@,
                users as nat,
                games as nat,
                waiting_view(waiting@),
            ),
        ),
{
    let ml: &MasterListConfig = &config.master_list;
    let port: String = decimal_string(config.control_port as u64);
    let users_s: String = decimal_string(users as u64);
    let max_users_s: String = decimal_string(ml.max_users as u64);
    let games_s: String = decimal_string(games as u64);
    let wgames: String = waiting_header_text(waiting, MasterProtocol::Kaillera);
    let mut query: Vec<(String, String)> = Vec::new();
    add_pair(&mut query, "servername", ml.server_name.as_str());
    add_pair(&mut query, "port", port.as_str());
    add_pair(&mut query, "nbusers", users_s.as_str());
    add_pair(&mut query, "maxconn", max_users_s.as_str());
    add_pair(&mut query, "version", version);
    add_pair(&mut query, "nbgames", games_s.as_str());
    add_pair(&mut query, "location", ml.server_location.as_str());
    add_pair(&mut query, "ip", server_address);
    add_pair(&mut query, "url", ml.server_website.as_str());
    let mut headers: Vec<(String, String)> = Vec::new();
    let none: String = String::new();
    add_pair(&mut headers, "Kaillera-games", none.as_str());
    add_pair(&mut headers, "Kaillera-wgames", wgames.as_str());
    let request = TouchRequest { url: url.to_owned(), query, headers };
    assert(request@ =~= kaillera_touch(
        url@,
        announcement(
            *config,
            server_address@,
            version@,
            users as nat,
            games as nat,
            waiting_view(waiting@),
        ),
    ));
    request
}

/// The request to a list of the EmuLinker kind.
pub fn touch_emulinker(
    url: &str,
    config: &Config,
    server_address: &str,
    version: &str,
    users: usize,
    games: usize,
    waiting: &[WaitingGame],
) -> (request: TouchRequest)
    ensures
        request@ == emulinker_touch(
            url@,
            announcement(
                *config,
                server_address@,
                version@,
                users as nat,
                games as nat,
                waiting_view(waiting@),
            ),
        ),
{
    let ml: &MasterListConfig = &config.master_list;
    let port: String = decimal_string(config.control_port as u64);
    let users_s: String = decimal_string(users as u64);
    let max_users_s: String = decimal_string(ml.max_users as u64);
    let games_s: String = decimal_string(games as u64);
    let max_games_s: String = decimal_string(ml.max_games as u64);
    let wgames: String = waiting_header_text(waiting, MasterProtocol::Emulinker);
    let mut query: Vec<(String, String)> = Vec::new();
    add_pair(&mut query, "serverName", ml.server_name.as_str());
    add_pair(&mut query, "ipAddress", server_address);
    add_pair(&mut query, "location", ml.server_location.as_str());
    add_pair(&mut query, "website", ml.server_website.as_str());
    add_pair(&mut query, "port", port.as_str());
    add_pair(&mut query, "numUsers", users_s.as_str());
    add_pair(&mut query, "maxUsers", max_users_s.as_str());
    add_pair(&mut query, "numGames", games_s.as_str());
    add_pair(&mut query, "maxGames", max_games_s.as_str());
    add_pair(&mut query, "version", version);
    let mut headers: Vec<(String, String)> = Vec::new();
    add_pair(&mut headers, "Waiting-games", wgames.as_str());
    let request = TouchRequest { url: url.to_owned(), query, headers };
    assert(request@ =~= emulinker_touch(
        url@,
        announcement(
            *config,
            server_address@,
            version@,
            users as nat,
            games as nat,
            waiting_view(waiting@),
        ),
    ));
    request
}

/// The views of a list of requests.
pub open spec fn requests_view(requests: Seq<TouchRequest>) -> Seq<TouchModel> {
    requests.map_values(|r: TouchRequest| r@)
}

/// One request to every list that is configured, for what was collected of the
/// server.
pub fn requests_for(
    config: &Config,
    server_address: &str,
    version: &str,
    users: usize,
    games: usize,
    waiting: &[WaitingGame],
) -> (requests: Vec<TouchRequest>)
    ensures
        requests_view(requests@) == Seq::new(
            config.master_list.servers@.len(),
            |i: int|
                touch(
                    config.master_list.servers@[i].endpoint,
                    announcement(
                        *config,
                        server_address@,
                        version@,
                        users as nat,
                        games as nat,
                        waiting_view(waiting@),
                    ),
                ),
        ),
{
    let ghost a = announcement(
        *config,
        server_address@,
        version@,
        users as nat,
        games as nat,
        waiting_view(waiting@),
    );
    let mut requests: Vec<TouchRequest> = Vec::new();
    let mut i: usize = 0;
    while i < config.master_list.servers.len()
        invariant
            i <= config.master_list.servers@.len(),
            a == announcement(
                *config,
                server_address@,
                version@,
                users as nat,
                games as nat,
                waiting_view(waiting@),
            ),
            requests@.len() == i,
            forall|j: int|
                0 <= j < i ==> (#[trigger] requests@[j])@ == touch(
                    config.master_list.servers@[j].endpoint,
                    a,
                ),
        decreases config.master_list.servers.len() - i,
    {
        let (url, protocol) = match &config.master_list.servers[i].endpoint {
            MasterEndpoint::Preset { preset } => (preset.url().to_owned(), preset.protocol()),
            MasterEndpoint::Custom { url, protocol } => (url.clone(), *protocol),
        };
        let request: TouchRequest = match protocol {
            MasterProtocol::Kaillera => touch_kaillera(
                url.as_str(),
                config,
                server_address,
                version,
                users,
                games,
                waiting,
            ),
            MasterProtocol::Emulinker => touch_emulinker(
                url.as_str(),
                config,
                server_address,
                version,
                users,
                games,
                waiting,
            ),
        };
        requests.push(request);
        i += 1;
    }
    assert(requests_view(requests@) =~= Seq::new(
        config.master_list.servers@.len(),
        |i: int| touch(config.master_list.servers@[i].endpoint, a),
    ));
    requests
}

/// One request to every list that is configured, for the server as it is now.
pub fn report(state: &AppState, config: &Config, server_address: &str, version: &str) -> (requests:
    Vec<TouchRequest>)
    ensures
        exists|ids: Seq<u32>|
            #![trigger lists_keys(ids, state@.games)]
            lists_keys(ids, state@.games) && requests_view(requests@) == Seq::new(
                config.master_list.servers@.len(),
                |i: int|
                    touch(
                        config.master_list.servers@[i].endpoint,
                        announcement(
                            *config,
                            server_address@,
                            version@,
                            state@.by_id.dom().len(),
                            state@.games.dom().len(),
                            waiting_among(state@, ids),
                        ),
                    ),
            ),
{
    let (users, total_games, waiting) = collect(state);
    requests_for(config, server_address, version, users, total_games, waiting.as_slice())
}

/// The address that an answer gives, where its text has no space around it: all of
/// it, if the service succeeded and said anything.
pub fn usable_address(success: bool, text: String) -> (address: Option<String>)
    ensures
        match address {
            Some(found) => success && text@.len() > 0 && found@ == text@,
            None => !success || text@.len() == 0,
        },
{
    if success && !text.as_str().is_empty() {
        Some(text)
    } else {
        None
    }
}

/// Takes the answer of a service that tells a caller its public address: the
/// address without the white space around it, if the service succeeded and said
/// anything. Otherwise the next service is asked.
pub fn public_address(success: bool, answer: &str) -> (address: Option<String>)
    ensures
        match address {
            Some(found) => success && trimmed(answer@).len() > 0 && found@ == trimmed(answer@),
            None => !success || trimmed(answer@).len() == 0,
        },
{
    usable_address(success, trim(answer))
}

} // verus!
