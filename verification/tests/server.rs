//! The lobby and its rooms: what each request does and who hears of it.

use direlera_rs::config::Config;
use direlera_rs::handlers::game::{execute_drop_game, kick_found};
use direlera_rs::handlers::room::migrate_owner_if_needed;
use direlera_rs::handlers::sync::process_input;
use direlera_rs::handlers::user::{let_in, LoginRequest};
use direlera_rs::handlers::util::{split_lines, Action};
use direlera_rs::handlers::{accepts, handle_message};
use direlera_rs::kaillera::message_types as msg;
use direlera_rs::kaillera::protocol::ParsedMessage;
use direlera_rs::simplest_game_sync::ClientInput;
use direlera_rs::state::{
    AppState, ServerError, GAME_STATUS_PLAYING, GAME_STATUS_WAITING, PLAYER_STATUS_IDLE,
    PLAYER_STATUS_NET_SYNC, PLAYER_STATUS_PLAYING,
};

const A: u64 = 0x7f00_0001_0001;
const B: u64 = 0x7f00_0001_0002;
const C: u64 = 0x7f00_0001_0003;
const MS: u64 = 1_000_000;

#[derive(Debug, PartialEq)]
enum Seen {
    Send(Vec<u64>, u8, Vec<u8>),
    Alone(u64, u8, Vec<u8>),
    Numbering(u64),
    Close(u64),
}

fn seen(actions: Vec<Action>) -> Vec<Seen> {
    actions
        .into_iter()
        .map(|action| match action {
            Action::Send {
                mut to,
                message_type,
                data,
            } => {
                to.sort();
                Seen::Send(to, message_type, data)
            }
            Action::SendAlone {
                to,
                message_type,
                data,
            } => Seen::Alone(to, message_type, data),
            Action::StartNumbering { addr } => Seen::Numbering(addr),
            Action::CloseSession { addr } => Seen::Close(addr),
        })
        .collect()
}

fn types(actions: &[Seen]) -> Vec<u8> {
    actions
        .iter()
        .map(|action| match action {
            Seen::Send(_, message_type, _) => *message_type,
            Seen::Alone(_, message_type, _) => *message_type,
            Seen::Numbering(_) => 0xF0,
            Seen::Close(_) => 0xF1,
        })
        .collect()
}

struct Server {
    state: AppState,
    secs: u64,
    now: u64,
}

impl Server {
    fn new() -> Server {
        Server::with(Config::default())
    }

    fn with(config: Config) -> Server {
        Server {
            state: AppState::new(config),
            secs: 1000,
            now: 0,
        }
    }

    fn try_send(
        &mut self,
        src: u64,
        message_type: u8,
        data: &[u8],
    ) -> (Result<(), ServerError>, Vec<Seen>) {
        let message = ParsedMessage {
            message_number: 0,
            message_type,
            data: data.to_vec(),
        };
        assert!(accepts(&message, src, &self.state));
        let mut out = Vec::new();
        let result = handle_message(message, src, self.secs, self.now, &mut self.state, &mut out);
        (result, seen(out))
    }

    fn send(&mut self, src: u64, message_type: u8, data: &[u8]) -> Vec<Seen> {
        let (result, actions) = self.try_send(src, message_type, data);
        assert_eq!(result, Ok(()));
        actions
    }

    fn refused(&self, src: u64, message_type: u8, data: &[u8]) -> bool {
        let message = ParsedMessage {
            message_number: 0,
            message_type,
            data: data.to_vec(),
        };
        !accepts(&message, src, &self.state)
    }

    fn login(&mut self, src: u64, name: &str) {
        let mut body = name.as_bytes().to_vec();
        body.extend_from_slice(b"\0emu\0\x01");
        self.send(src, msg::USER_LOGIN, &body);
        for _ in 0..4 {
            self.send(src, msg::CLIENT_TO_SERVER_ACK, &[0]);
        }
    }

    fn create(&mut self, src: u64, name: &str) -> Vec<Seen> {
        let mut body = vec![0];
        body.extend_from_slice(name.as_bytes());
        body.extend_from_slice(b"\0\0\xff\xff\xff\xff");
        self.send(src, msg::CREATE_GAME, &body)
    }

    fn join_body(game_id: u32) -> Vec<u8> {
        let mut body = vec![0];
        body.extend_from_slice(&game_id.to_le_bytes());
        body.extend_from_slice(&[0, 0, 0, 0, 0, 0xff, 0xff, 1]);
        body
    }

    fn join(&mut self, src: u64, game_id: u32) -> Vec<Seen> {
        self.send(src, msg::JOIN_GAME, &Server::join_body(game_id))
    }

    fn start(&mut self, src: u64) -> Vec<Seen> {
        self.send(src, msg::START_GAME, &[0, 0xff, 0xff, 0xff, 0xff])
    }

    fn input(&mut self, src: u64, bytes: &[u8]) -> Vec<Seen> {
        let mut body = vec![0, bytes.len() as u8, 0];
        body.extend_from_slice(bytes);
        self.send(src, msg::GAME_DATA, &body)
    }

    fn status(&self, src: u64) -> u8 {
        self.state.get_client(src).unwrap().player_status
    }

    fn room(&self, src: u64) -> Option<u32> {
        self.state.get_client(src).unwrap().game_id
    }

    fn listed(&self, game_id: u32) -> Vec<u64> {
        let game = self.state.get_game(game_id).unwrap();
        game.players.iter().map(|p| p.addr).collect()
    }

    /// Two clients in a live game.
    fn playing() -> Server {
        let mut server = Server::new();
        server.login(A, "ann");
        server.login(B, "bob");
        server.create(A, "Game");
        server.join(B, 1);
        server.start(A);
        server
    }
}

#[test]
fn only_lan_clients_log_in() {
    let mut server = Server::new();
    for kind in [0, 2, 3, 4, 5, 6, 7, 255u8] {
        let mut body = b"nonlan\0emu\0".to_vec();
        body.push(kind);
        assert_eq!(
            server.send(A, msg::USER_LOGIN, &body),
            vec![Seen::Alone(
                A,
                msg::CONNECTION_REJECTED,
                b"server\0\0\0Only LAN connection type is allowed.\0".to_vec()
            )]
        );
    }
    assert_eq!(
        types(&server.send(A, msg::USER_LOGIN, b"nonlan\0emu\0")),
        vec![msg::CONNECTION_REJECTED]
    );
    assert!(server.state.get_client(A).is_none());
    assert_eq!(server.state.client_count(), 0);
}

#[test]
fn login_starts_the_handshake() {
    let mut server = Server::new();
    server.now = 7;
    let actions = server.send(A, msg::USER_LOGIN, b"ann\0emu\0\x01");
    assert_eq!(
        actions,
        vec![
            Seen::Numbering(A),
            Seen::Send(
                vec![A],
                msg::SERVER_TO_CLIENT_ACK,
                vec![0, 0, 0, 0, 0, 1, 0, 0, 0, 2, 0, 0, 0, 3, 0, 0, 0]
            ),
        ]
    );
    let client = server.state.get_client(A).unwrap();
    assert_eq!(client.username, b"ann".to_vec());
    assert_eq!(client.emulator_name, b"emu".to_vec());
    assert_eq!(client.user_id, 1);
    assert_eq!(client.player_status, PLAYER_STATUS_IDLE);
    assert_eq!(client.game_id, None);
    assert_eq!(client.last_ping_time, Some(7));
    assert_eq!(client.last_activity_secs, 1000);
    assert_eq!((client.session_id >> 76) & 0xf, 4);
    assert_eq!((client.session_id >> 62) & 3, 2);
    server.login(B, "bob");
    assert_eq!(server.state.get_client(B).unwrap().user_id, 2);
    assert_ne!(
        server.state.get_client(A).unwrap().session_id,
        server.state.get_client(B).unwrap().session_id
    );
}

#[test]
fn long_names_are_cut() {
    let mut server = Server::new();
    let mut body = vec![b'x'; 40];
    body.extend_from_slice(b"\0emu\0\x01");
    server.send(A, msg::USER_LOGIN, &body);
    assert_eq!(server.state.get_client(A).unwrap().username, vec![b'x'; 31]);
    let long = "g".repeat(200);
    server.create(A, &long);
    assert_eq!(server.state.get_game(1).unwrap().game_name, vec![b'g'; 127]);
}

#[test]
fn fourth_acknowledgement_completes_the_login() {
    let mut server = Server::with(Config {
        welcome_message: "Hi\r\nthere\n\nend".to_string(),
        ..Config::default()
    });
    server.login(B, "bob");
    server.send(A, msg::USER_LOGIN, b"ann\0emu\0\x01");
    for _ in 0..3 {
        server.now += 10 * MS;
        assert_eq!(
            types(&server.send(A, msg::CLIENT_TO_SERVER_ACK, &[])),
            vec![msg::SERVER_TO_CLIENT_ACK]
        );
    }
    server.now += 14 * MS;
    let actions = server.send(A, msg::CLIENT_TO_SERVER_ACK, &[]);
    assert_eq!(
        actions,
        vec![
            Seen::Send(
                vec![A],
                msg::SERVER_STATUS,
                b"\0\x01\0\0\0\0\0\0\0bob\0\0\0\0\0\x01\x01\0\x01".to_vec()
            ),
            Seen::Send(
                vec![A, B],
                msg::USER_JOINED,
                b"ann\0\x02\0\x0b\0\0\0\x01".to_vec()
            ),
            Seen::Send(vec![A], msg::SERVER_INFORMATION, b"Server\0Hi\0".to_vec()),
            Seen::Send(vec![A], msg::SERVER_INFORMATION, b"Server\0there\0".to_vec()),
            Seen::Send(vec![A], msg::SERVER_INFORMATION, b"Server\0\0".to_vec()),
            Seen::Send(vec![A], msg::SERVER_INFORMATION, b"Server\0end\0".to_vec()),
        ]
    );
}

#[test]
fn ping_is_the_mean_round_trip_to_the_nearest_millisecond() {
    let mut server = Server::new();
    server.send(A, msg::USER_LOGIN, b"ann\0emu\0\x01");
    server.now += 20 * MS + 499_999;
    server.send(A, msg::CLIENT_TO_SERVER_ACK, &[]);
    assert_eq!(server.state.get_client(A).unwrap().ping, 20);
    server.now += 20 * MS + 500_001;
    server.send(A, msg::CLIENT_TO_SERVER_ACK, &[]);
    let client = server.state.get_client(A).unwrap();
    assert_eq!(client.ping_total, 41_000_000);
    assert_eq!(client.ping, 21);
    assert_eq!(client.ack_count, 2);
    assert_eq!(
        server.try_send(B, msg::CLIENT_TO_SERVER_ACK, &[]).0,
        Err(ServerError::ClientNotFound)
    );
}

#[test]
fn name_in_use_is_refused() {
    let mut server = Server::new();
    server.login(A, "ann");
    server.secs += 29;
    assert_eq!(
        server.send(B, msg::USER_LOGIN, b"ann\0emu\0\x01"),
        vec![Seen::Alone(
            B,
            msg::CONNECTION_REJECTED,
            b"server\0\0\0Username is already in use.\0".to_vec()
        )]
    );
    assert!(server.state.get_client(B).is_none());
}

#[test]
fn stale_session_makes_way() {
    let mut server = Server::new();
    server.login(A, "ann");
    server.login(C, "cat");
    server.create(A, "Game");
    server.secs += 30;
    let actions = server.send(B, msg::USER_LOGIN, b"ann\0emu\0\x01");
    assert_eq!(
        actions,
        vec![
            Seen::Send(vec![A, C], msg::CLOSE_GAME, vec![0, 1, 0, 0, 0]),
            Seen::Send(vec![A, C], msg::QUIT_GAME, b"ann\0\x01\0".to_vec()),
            Seen::Send(vec![C], msg::USER_QUIT, b"ann\0\x01\0reconnected\0".to_vec()),
            Seen::Close(A),
            Seen::Numbering(B),
            Seen::Send(
                vec![B],
                msg::SERVER_TO_CLIENT_ACK,
                vec![0, 0, 0, 0, 0, 1, 0, 0, 0, 2, 0, 0, 0, 3, 0, 0, 0]
            ),
        ]
    );
    assert!(server.state.get_client(A).is_none());
    assert_eq!(server.state.get_client(B).unwrap().user_id, 3);
    assert!(server.state.get_game(1).is_none());
}

#[test]
fn session_identifier_can_be_given() {
    let mut state = AppState::new(Config::default());
    let mut out = Vec::new();
    let request = LoginRequest {
        username: b"ann".to_vec(),
        emulator_name: vec![],
        conn_type: 1,
    };
    let_in(A, request, 42, 5, 6, &mut state, &mut out);
    let client = state.get_client(A).unwrap();
    assert_eq!(client.session_id, 42);
    assert_eq!(client.user_id, 1);
    assert_eq!(types(&seen(out)), vec![0xF0, msg::SERVER_TO_CLIENT_ACK]);
}

#[test]
fn keep_alive_and_unknown_messages_do_nothing() {
    let mut server = Server::new();
    server.login(A, "ann");
    assert!(server.send(A, msg::CLIENT_KEEP_ALIVE, &[0]).is_empty());
    assert!(server.send(A, 0x55, &[1, 2, 3]).is_empty());
}

#[test]
fn lobby_chat_reaches_everybody() {
    let mut server = Server::new();
    server.login(A, "ann");
    server.login(B, "bob");
    assert_eq!(
        server.send(A, msg::GLOBAL_CHAT, b"\0hello\0"),
        vec![Seen::Send(
            vec![A, B],
            msg::GLOBAL_CHAT,
            b"ann\0hello\0".to_vec()
        )]
    );
    assert_eq!(
        server.send(C, msg::GLOBAL_CHAT, b"\0who"),
        vec![Seen::Send(
            vec![A, B],
            msg::GLOBAL_CHAT,
            b"Unknown\0who\0".to_vec()
        )]
    );
}

#[test]
fn room_chat_stays_in_the_room() {
    let mut server = Server::new();
    server.login(A, "ann");
    server.login(B, "bob");
    server.login(C, "cat");
    assert_eq!(
        server.try_send(A, msg::GAME_CHAT, b"\0x\0").0,
        Err(ServerError::NotInGame)
    );
    assert_eq!(
        server.try_send(0, msg::GAME_CHAT, b"\0x\0").0,
        Err(ServerError::ClientNotFound)
    );
    server.create(A, "Game");
    server.join(B, 1);
    assert_eq!(
        server.send(B, msg::GAME_CHAT, b"\0hi\0"),
        vec![Seen::Send(vec![A, B], msg::GAME_CHAT, b"bob\0hi\0".to_vec())]
    );
    assert!(server.send(B, msg::GAME_CHAT, b"\0a\x11b\0").is_empty());
    let (result, actions) = server.try_send(C, msg::JOIN_GAME, &Server::join_body(9));
    assert_eq!(result, Err(ServerError::GameNotFound));
    assert!(actions.is_empty());
    assert_eq!(
        server.try_send(C, msg::GAME_CHAT, b"\0x\0").0,
        Err(ServerError::GameNotFound)
    );
}

#[test]
fn creating_a_room() {
    let mut server = Server::new();
    server.login(A, "ann");
    server.login(B, "bob");
    assert_eq!(
        server.create(A, "Game"),
        vec![
            Seen::Send(
                vec![A, B],
                msg::CREATE_GAME,
                b"ann\0Game\0emu\0\x01\0\0\0".to_vec()
            ),
            Seen::Send(
                vec![A, B],
                msg::UPDATE_GAME_STATUS,
                vec![0, 1, 0, 0, 0, 0, 1, 4]
            ),
            Seen::Send(vec![A], msg::PLAYER_INFORMATION, vec![0, 0, 0, 0, 0]),
            Seen::Send(
                vec![A],
                msg::JOIN_GAME,
                b"\0\0\0\0\0ann\0\0\0\0\0\x01\0\x01".to_vec()
            ),
        ]
    );
    assert_eq!(server.room(A), Some(1));
    assert!(server.create(A, "Other").is_empty());
    assert!(server.state.get_game(2).is_none());
    assert_eq!(
        server.try_send(C, msg::CREATE_GAME, b"\0g\0").0,
        Err(ServerError::ClientNotFound)
    );
    server.create(B, "Next");
    assert_eq!(server.room(B), Some(3));
}

#[test]
fn room_number_that_no_longer_holds_is_forgotten() {
    let mut server = Server::new();
    server.login(A, "ann");
    let (result, _) = server.try_send(A, msg::JOIN_GAME, &Server::join_body(77));
    assert_eq!(result, Err(ServerError::GameNotFound));
    assert_eq!(server.room(A), Some(77));
    assert!(server.join(A, 77).is_empty());
    server.create(A, "Game");
    assert_eq!(server.room(A), Some(1));
}

#[test]
fn joining_a_room() {
    let mut server = Server::new();
    server.login(A, "ann");
    server.login(B, "bob");
    server.create(A, "Game");
    assert_eq!(
        server.join(B, 1),
        vec![
            Seen::Send(
                vec![A, B],
                msg::UPDATE_GAME_STATUS,
                vec![0, 1, 0, 0, 0, 0, 2, 4]
            ),
            Seen::Send(
                vec![B],
                msg::PLAYER_INFORMATION,
                b"\0\x01\0\0\0ann\0\0\0\0\0\x01\0\x01".to_vec()
            ),
            Seen::Send(
                vec![A, B],
                msg::JOIN_GAME,
                b"\0\0\0\0\0bob\0\0\0\0\0\x02\0\x01".to_vec()
            ),
        ]
    );
    assert_eq!(server.listed(1), vec![A, B]);
    assert!(server.join(B, 1).is_empty());
    assert_eq!(
        server.try_send(C, msg::JOIN_GAME, &Server::join_body(1)).0,
        Err(ServerError::ClientNotFound)
    );
}

#[test]
fn leaving_a_waiting_room() {
    let mut server = Server::new();
    server.login(A, "ann");
    server.login(B, "bob");
    server.create(A, "Game");
    server.join(B, 1);
    assert_eq!(
        server.send(A, msg::QUIT_GAME, &[0, 0xff, 0xff]),
        vec![
            Seen::Send(
                vec![A, B],
                msg::UPDATE_GAME_STATUS,
                vec![0, 1, 0, 0, 0, 0, 1, 4]
            ),
            Seen::Send(vec![B], msg::QUIT_GAME, b"ann\0\x01\0".to_vec()),
            Seen::Send(
                vec![B],
                msg::GAME_CHAT,
                b"Server\0bob is now the room host\0".to_vec()
            ),
        ]
    );
    let game = server.state.get_game(1).unwrap();
    assert_eq!(game.owner, b"bob".to_vec());
    assert_eq!(game.owner_user_id, 2);
    assert_eq!(server.room(A), None);
    assert_eq!(
        server.send(B, msg::QUIT_GAME, &[]),
        vec![
            Seen::Send(vec![A, B], msg::CLOSE_GAME, vec![0, 1, 0, 0, 0]),
            Seen::Send(vec![A, B], msg::QUIT_GAME, b"bob\0\x02\0".to_vec()),
        ]
    );
    assert!(server.state.get_game(1).is_none());
    assert!(server.send(B, msg::QUIT_GAME, &[]).is_empty());
    assert!(server.send(C, msg::QUIT_GAME, &[]).is_empty());
}

#[test]
fn starting_a_game() {
    let mut server = Server::new();
    server.login(A, "ann");
    server.login(B, "bob");
    server.create(A, "Game");
    server.join(B, 1);
    assert!(server.start(B).is_empty());
    assert_eq!(server.state.get_game(1).unwrap().game_status, GAME_STATUS_WAITING);
    assert_eq!(
        server.start(A),
        vec![
            Seen::Send(
                vec![A, B],
                msg::UPDATE_GAME_STATUS,
                vec![0, 1, 0, 0, 0, 1, 2, 4]
            ),
            Seen::Send(vec![A], msg::START_GAME, vec![0, 1, 0, 1, 2]),
            Seen::Send(vec![B], msg::START_GAME, vec![0, 1, 0, 2, 2]),
        ]
    );
    assert_eq!(server.status(A), PLAYER_STATUS_NET_SYNC);
    assert_eq!(server.status(B), PLAYER_STATUS_NET_SYNC);
    let game = server.state.get_game(1).unwrap();
    assert_eq!(game.game_status, GAME_STATUS_PLAYING);
    assert_eq!(game.sync_manager.as_ref().unwrap().player_count(), 2);
    assert_eq!(
        server.start(B),
        vec![Seen::Send(
            vec![A, B],
            msg::GAME_CHAT,
            b"bob\0Game is already started\0".to_vec()
        )]
    );
    let body = [0, 0xff, 0xff, 0xff, 0xff];
    assert_eq!(
        server.try_send(C, msg::START_GAME, &body).0,
        Err(ServerError::ClientNotFound)
    );
    server.login(C, "cat");
    assert_eq!(
        server.try_send(C, msg::START_GAME, &body).0,
        Err(ServerError::NotInGame)
    );
    let _ = server.try_send(C, msg::JOIN_GAME, &Server::join_body(5));
    assert_eq!(
        server.try_send(C, msg::START_GAME, &body).0,
        Err(ServerError::GameNotFound)
    );
}

#[test]
fn everybody_ready_starts_the_play() {
    let mut server = Server::playing();
    assert_eq!(
        types(&server.send(A, msg::READY_TO_PLAY, &[0])),
        vec![msg::UPDATE_GAME_STATUS]
    );
    assert_eq!(server.status(A), PLAYER_STATUS_NET_SYNC);
    assert_eq!(server.status(B), PLAYER_STATUS_NET_SYNC);
    assert_eq!(
        types(&server.send(A, msg::READY_TO_PLAY, &[0])),
        vec![msg::UPDATE_GAME_STATUS]
    );
    let actions = server.send(B, msg::READY_TO_PLAY, &[0]);
    assert_eq!(
        actions,
        vec![
            Seen::Send(
                vec![A, B],
                msg::UPDATE_GAME_STATUS,
                vec![0, 1, 0, 0, 0, 1, 2, 4]
            ),
            Seen::Send(vec![A, B], msg::READY_TO_PLAY, vec![0]),
        ]
    );
    assert_eq!(server.status(A), PLAYER_STATUS_PLAYING);
    assert_eq!(server.status(B), PLAYER_STATUS_PLAYING);
    assert!(server.send(B, msg::READY_TO_PLAY, &[0]).is_empty());
}

#[test]
fn next_game_waits_for_everybody_again() {
    let mut server = Server::playing();
    server.send(A, msg::READY_TO_PLAY, &[0]);
    server.send(B, msg::READY_TO_PLAY, &[0]);
    server.send(A, msg::DROP_GAME, &[]);
    server.send(B, msg::DROP_GAME, &[]);
    server.start(A);
    assert_eq!(
        types(&server.send(B, msg::READY_TO_PLAY, &[0])),
        vec![msg::UPDATE_GAME_STATUS]
    );
}

#[test]
fn who_left_is_not_waited_for() {
    let mut server = Server::new();
    server.login(A, "ann");
    server.login(B, "bob");
    server.login(C, "cat");
    server.create(A, "Game");
    server.join(B, 1);
    server.join(C, 1);
    server.start(A);
    server.send(A, msg::READY_TO_PLAY, &[0]);
    server.send(C, msg::QUIT_GAME, &[]);
    assert_eq!(
        types(&server.send(B, msg::READY_TO_PLAY, &[0])),
        vec![msg::UPDATE_GAME_STATUS, msg::READY_TO_PLAY]
    );
    assert_eq!(server.status(A), PLAYER_STATUS_PLAYING);
    assert_eq!(server.status(C), PLAYER_STATUS_IDLE);
}

#[test]
fn ready_waits_for_the_others() {
    let mut server = Server::new();
    server.login(A, "ann");
    server.login(B, "bob");
    assert_eq!(
        server.try_send(A, msg::READY_TO_PLAY, &[0]).0,
        Err(ServerError::NotInGame)
    );
    assert_eq!(
        server.try_send(C, msg::READY_TO_PLAY, &[0]).0,
        Err(ServerError::ClientNotFound)
    );
    server.create(A, "Game");
    server.join(B, 1);
    assert_eq!(
        types(&server.send(A, msg::READY_TO_PLAY, &[0])),
        vec![msg::UPDATE_GAME_STATUS]
    );
    assert_eq!(server.status(A), PLAYER_STATUS_NET_SYNC);
    let actions = server.send(B, msg::READY_TO_PLAY, &[0]);
    assert_eq!(
        actions[1],
        Seen::Send(vec![A, B], msg::READY_TO_PLAY, vec![0])
    );
    let _ = server.send(A, msg::QUIT_GAME, &[]);
    let _ = server.try_send(A, msg::JOIN_GAME, &Server::join_body(8));
    assert_eq!(
        server.try_send(A, msg::READY_TO_PLAY, &[0]).0,
        Err(ServerError::GameNotFound)
    );
}

#[test]
fn input_is_combined_for_everybody() {
    let mut server = Server::playing();
    server.now = 5;
    assert!(server.input(A, &[1, 2]).is_empty());
    assert_eq!(
        server.input(B, &[3, 4]),
        vec![
            Seen::Send(vec![A], msg::GAME_DATA, vec![0, 4, 0, 1, 2, 3, 4]),
            Seen::Send(vec![B], msg::GAME_DATA, vec![0, 4, 0, 1, 2, 3, 4]),
        ]
    );
    assert!(server.send(A, msg::GAME_CACHE, &[0, 0]).is_empty());
    assert_eq!(
        server.send(B, msg::GAME_CACHE, &[0, 0]),
        vec![
            Seen::Send(vec![A], msg::GAME_CACHE, vec![0, 0]),
            Seen::Send(vec![B], msg::GAME_CACHE, vec![0, 0]),
        ]
    );
    let game = server.state.get_game(1).unwrap();
    assert_eq!(game.players[0].last_game_data_recv, Some(5));
    assert!(server.input(C, &[1]).is_empty());
    assert!(server.send(C, msg::GAME_CACHE, &[0, 0]).is_empty());
}

#[test]
fn output_cache_can_be_switched_off() {
    let mut server = Server::with(Config {
        disable_output_cache: true,
        ..Config::default()
    });
    server.login(A, "ann");
    server.create(A, "Game");
    server.start(A);
    for _ in 0..3 {
        assert_eq!(
            server.input(A, &[9]),
            vec![Seen::Send(vec![A], msg::GAME_DATA, vec![0, 1, 0, 9])]
        );
    }
}

#[test]
fn empty_cache_position_is_reported() {
    let mut server = Server::playing();
    let (result, actions) = server.try_send(B, msg::GAME_CACHE, &[0, 3]);
    assert_eq!(
        result,
        Err(ServerError::CacheMiss {
            player_id: 1,
            position: 3
        })
    );
    assert_eq!(
        actions,
        vec![Seen::Send(
            vec![B],
            msg::GAME_CHAT,
            b"Server\0Game Data Error! Game state will be inconsistent!\0".to_vec()
        )]
    );
}

#[test]
fn input_without_a_live_game_fails() {
    let mut server = Server::new();
    server.login(A, "ann");
    server.create(A, "Game");
    assert_eq!(
        server.try_send(A, msg::GAME_DATA, &[0, 1, 0, 7]).0,
        Err(ServerError::SyncNotInitialized)
    );
    let mut out = Vec::new();
    assert_eq!(
        process_input(A, 1, 0, ClientInput::GameCache(0), 4, &mut server.state, &mut out),
        Err(ServerError::SyncNotInitialized)
    );
    assert!(out.is_empty());
}

#[test]
fn late_joiner_has_no_slot_in_the_live_game() {
    let mut server = Server::playing();
    server.login(C, "cat");
    server.join(C, 1);
    assert_eq!(
        server.try_send(C, msg::GAME_DATA, &[0, 1, 0, 7]).0,
        Err(ServerError::InvalidPlayerId {
            player_id: 2,
            player_count: 2
        })
    );
    assert_eq!(
        server.try_send(C, msg::DROP_GAME, &[0, 0]).0,
        Err(ServerError::InvalidPlayerId {
            player_id: 2,
            player_count: 2
        })
    );
}

#[test]
fn kick_during_a_game_keeps_the_slots() {
    let mut server = Server::new();
    server.login(A, "ann");
    server.login(B, "bob");
    server.login(C, "cat");
    server.create(A, "Game");
    server.join(B, 1);
    server.join(C, 1);
    server.start(A);
    assert_eq!(
        server.send(A, msg::KICK_USER, &[0, 2, 0]),
        vec![
            Seen::Send(vec![A, B, C], msg::DROP_GAME, b"bob\0\x02".to_vec()),
            Seen::Send(
                vec![A, B, C],
                msg::UPDATE_GAME_STATUS,
                vec![0, 1, 0, 0, 0, 1, 2, 4]
            ),
            Seen::Send(vec![A, B, C], msg::QUIT_GAME, b"bob\0\x02\0".to_vec()),
        ]
    );
    assert_eq!(server.listed(1), vec![A, B, C]);
    let game = server.state.get_game(1).unwrap();
    assert!(game.players[1].left_room);
    assert_eq!(game.num_players, 2);
    assert!(game.sync_manager.as_ref().unwrap().is_player_dropped(1));
    assert_eq!(server.room(B), None);
    assert_eq!(server.status(B), PLAYER_STATUS_IDLE);
    assert!(server.input(A, &[3]).is_empty());
    let actions = server.input(C, &[5]);
    assert_eq!(
        actions[2],
        Seen::Send(vec![C], msg::GAME_DATA, vec![0, 3, 0, 3, 0, 5])
    );
    server.create(B, "Other");
    assert_eq!(server.room(B), Some(2));
}

#[test]
fn kick_of_the_last_player_ends_the_game() {
    let mut server = Server::playing();
    server.send(A, msg::DROP_GAME, &[]);
    let actions = server.send(A, msg::KICK_USER, &[0, 2, 0]);
    assert_eq!(
        types(&actions),
        vec![
            msg::DROP_GAME,
            msg::UPDATE_GAME_STATUS,
            msg::UPDATE_GAME_STATUS,
            msg::QUIT_GAME
        ]
    );
    assert_eq!(server.listed(1), vec![A]);
    let game = server.state.get_game(1).unwrap();
    assert_eq!(game.game_status, GAME_STATUS_WAITING);
    assert!(game.sync_manager.is_none());
}

#[test]
fn dropping_out_keeps_the_room() {
    let mut server = Server::playing();
    server.input(B, &[4]);
    assert_eq!(
        server.send(A, msg::DROP_GAME, &[0, 0]),
        vec![
            Seen::Send(vec![A, B], msg::DROP_GAME, b"ann\0\x01".to_vec()),
            Seen::Send(vec![A], msg::GAME_DATA, vec![0, 2, 0, 0, 4]),
            Seen::Send(vec![B], msg::GAME_DATA, vec![0, 2, 0, 0, 4]),
        ]
    );
    assert_eq!(server.status(B), PLAYER_STATUS_IDLE);
    assert_eq!(server.room(A), Some(1));
    assert_eq!(
        server.send(B, msg::DROP_GAME, &[0, 0]),
        vec![
            Seen::Send(vec![A, B], msg::DROP_GAME, b"bob\0\x02".to_vec()),
            Seen::Send(
                vec![A, B],
                msg::UPDATE_GAME_STATUS,
                vec![0, 1, 0, 0, 0, 0, 2, 4]
            ),
        ]
    );
    let game = server.state.get_game(1).unwrap();
    assert_eq!(game.game_status, GAME_STATUS_WAITING);
    assert!(game.sync_manager.is_none());
    assert!(server.send(C, msg::DROP_GAME, &[]).is_empty());
    let mut out = Vec::new();
    assert_eq!(
        execute_drop_game(1, A, &mut server.state, &mut out),
        Ok(false)
    );
    assert_eq!(
        execute_drop_game(9, A, &mut server.state, &mut out),
        Ok(false)
    );
    assert_eq!(
        execute_drop_game(1, C, &mut server.state, &mut out),
        Err(ServerError::ClientNotFound)
    );
}

#[test]
fn leaving_a_live_game_keeps_the_slots() {
    let mut server = Server::playing();
    let actions = server.send(A, msg::QUIT_GAME, &[]);
    assert_eq!(
        actions,
        vec![
            Seen::Send(vec![A, B], msg::DROP_GAME, b"ann\0\x01".to_vec()),
            Seen::Send(
                vec![A, B],
                msg::UPDATE_GAME_STATUS,
                vec![0, 1, 0, 0, 0, 1, 1, 4]
            ),
            Seen::Send(vec![A, B], msg::QUIT_GAME, b"ann\0\x01\0".to_vec()),
            Seen::Send(
                vec![A, B],
                msg::GAME_CHAT,
                b"Server\0bob is now the room host\0".to_vec()
            ),
        ]
    );
    assert_eq!(server.listed(1), vec![A, B]);
    assert!(server.state.get_game(1).unwrap().players[0].left_room);
    assert_eq!(server.state.get_game(1).unwrap().owner_user_id, 2);
    assert_eq!(server.room(A), None);
    assert_eq!(
        server.input(B, &[5]),
        vec![
            Seen::Send(vec![A], msg::GAME_DATA, vec![0, 2, 0, 0, 5]),
            Seen::Send(vec![B], msg::GAME_DATA, vec![0, 2, 0, 0, 5]),
        ]
    );
    let actions = server.send(B, msg::QUIT_GAME, &[]);
    assert_eq!(
        types(&actions),
        vec![msg::UPDATE_GAME_STATUS, msg::CLOSE_GAME, msg::QUIT_GAME]
    );
    assert!(server.state.get_game(1).is_none());
}

#[test]
fn drop_goes_on_without_who_logged_out() {
    let mut server = Server::new();
    server.login(A, "ann");
    server.login(B, "bob");
    server.login(C, "cat");
    server.create(A, "Game");
    server.join(B, 1);
    server.join(C, 1);
    server.start(A);
    server.send(B, msg::USER_QUIT, b"\0\xff\xffbye\0");
    assert!(server.state.get_client(B).is_none());
    assert_eq!(server.listed(1), vec![A, B, C]);
    assert!(server.input(C, &[5]).is_empty());
    assert_eq!(
        server.send(A, msg::DROP_GAME, &[0, 0]),
        vec![
            Seen::Send(vec![A, B, C], msg::DROP_GAME, b"ann\0\x01".to_vec()),
            Seen::Send(vec![A], msg::GAME_DATA, vec![0, 3, 0, 0, 0, 5]),
            Seen::Send(vec![B], msg::GAME_DATA, vec![0, 3, 0, 0, 0, 5]),
            Seen::Send(vec![C], msg::GAME_DATA, vec![0, 3, 0, 0, 0, 5]),
        ]
    );
    assert_eq!(server.status(A), PLAYER_STATUS_IDLE);
    assert_eq!(server.status(C), PLAYER_STATUS_IDLE);
    assert_eq!(
        types(&server.send(C, msg::DROP_GAME, &[0, 0])),
        vec![msg::DROP_GAME, msg::UPDATE_GAME_STATUS]
    );
    assert_eq!(server.listed(1), vec![A, C]);
}

#[test]
fn start_goes_on_without_who_is_not_logged_in() {
    let mut server = Server::new();
    server.login(A, "ann");
    server.login(B, "bob");
    server.create(A, "Game");
    server.join(B, 1);
    assert!(server.state.remove_client(B).is_some());
    assert_eq!(
        server.start(A),
        vec![
            Seen::Send(
                vec![A],
                msg::UPDATE_GAME_STATUS,
                vec![0, 1, 0, 0, 0, 1, 2, 4]
            ),
            Seen::Send(vec![A], msg::START_GAME, vec![0, 1, 0, 1, 2]),
            Seen::Send(vec![B], msg::START_GAME, vec![0, 1, 0, 2, 2]),
        ]
    );
    assert_eq!(server.status(A), PLAYER_STATUS_NET_SYNC);
    assert!(server.state.get_game(1).unwrap().sync_manager.is_some());
}

#[test]
fn game_over_purges_who_left() {
    let mut server = Server::playing();
    server.send(B, msg::QUIT_GAME, &[]);
    server.send(A, msg::DROP_GAME, &[]);
    assert_eq!(server.listed(1), vec![A]);
    let game = server.state.get_game(1).unwrap();
    assert_eq!(game.num_players, 1);
    assert_eq!(game.game_status, GAME_STATUS_WAITING);
}

#[test]
fn owner_kicks() {
    let mut server = Server::new();
    server.login(A, "ann");
    server.login(B, "bob");
    server.login(C, "cat");
    server.create(A, "Game");
    server.join(B, 1);
    assert!(server.send(B, msg::KICK_USER, &[0, 1, 0]).is_empty());
    assert!(server.send(A, msg::KICK_USER, &[0, 3, 0]).is_empty());
    assert!(server.send(A, msg::KICK_USER, &[0, 9, 0]).is_empty());
    assert_eq!(
        server.send(A, msg::KICK_USER, &[0, 2, 0]),
        vec![
            Seen::Send(
                vec![A, B, C],
                msg::UPDATE_GAME_STATUS,
                vec![0, 1, 0, 0, 0, 0, 1, 4]
            ),
            Seen::Send(vec![A], msg::QUIT_GAME, b"bob\0\x02\0".to_vec()),
        ]
    );
    assert_eq!(server.listed(1), vec![A]);
    assert_eq!(server.room(B), Some(1));
    server.create(C, "Other");
    assert!(server.send(A, msg::KICK_USER, &[0, 3, 0]).is_empty());
    assert_eq!(
        server.try_send(0, msg::KICK_USER, &[0, 3, 0]).0,
        Err(ServerError::ClientNotFound)
    );
    let mut out = Vec::new();
    assert_eq!(kick_found(A, None, &mut server.state, &mut out), Ok(()));
    assert!(out.is_empty());
}

#[test]
fn kick_needs_a_room() {
    let mut server = Server::new();
    server.login(A, "ann");
    assert_eq!(
        server.try_send(A, msg::KICK_USER, &[0, 1, 0]).0,
        Err(ServerError::NotInGame)
    );
    let _ = server.try_send(A, msg::JOIN_GAME, &Server::join_body(5));
    assert_eq!(
        server.try_send(A, msg::KICK_USER, &[0, 1, 0]).0,
        Err(ServerError::GameNotFound)
    );
}

#[test]
fn logging_out() {
    let mut server = Server::new();
    server.login(A, "ann");
    server.login(B, "bob");
    server.create(A, "Game");
    assert_eq!(
        server.send(A, msg::USER_QUIT, b"\0\xff\xffbye\0"),
        vec![
            Seen::Send(vec![A, B], msg::CLOSE_GAME, vec![0, 1, 0, 0, 0]),
            Seen::Send(vec![A, B], msg::QUIT_GAME, b"ann\0\x01\0".to_vec()),
            Seen::Send(vec![B], msg::USER_QUIT, b"ann\0\x01\0bye\0".to_vec()),
            Seen::Close(A),
        ]
    );
    assert!(server.state.get_client(A).is_none());
    assert_eq!(
        server.send(A, msg::USER_QUIT, b""),
        vec![Seen::Close(A)]
    );
}

#[test]
fn incomplete_bodies_are_not_accepted() {
    let mut server = Server::playing();
    assert!(server.refused(A, msg::GAME_DATA, &[0, 2, 0, 1]));
    assert!(server.refused(A, msg::GAME_DATA, &[0, 2]));
    assert!(server.refused(A, msg::GAME_CACHE, &[0]));
    assert!(server.refused(A, msg::READY_TO_PLAY, &[]));
    assert!(server.refused(A, msg::START_GAME, &[0, 1, 2, 3]));
    assert!(server.refused(A, msg::KICK_USER, &[0, 1]));
    assert!(server.refused(A, msg::JOIN_GAME, &[0, 1, 0, 0, 0, 0, 1, 2, 3, 4, 5, 6]));
    assert!(!server.refused(A, msg::CREATE_GAME, &[]));
    assert!(!server.refused(A, msg::USER_LOGIN, &[]));
    assert!(!server.refused(A, msg::KICK_USER, &[0, 2, 0]));
    server.send(A, msg::DROP_GAME, &[]);
    server.send(B, msg::DROP_GAME, &[]);
    let mut game = server.state.remove_game(1).unwrap();
    game.num_players = 0;
    server.state.add_game(1, game);
    assert!(server.refused(A, msg::KICK_USER, &[0, 2, 0]));
    assert!(!server.refused(A, msg::KICK_USER, &[0, 7, 0]));
    let mut game = server.state.remove_game(1).unwrap();
    game.num_players = 255;
    server.state.add_game(1, game);
    server.login(C, "cat");
    assert!(server.refused(C, msg::JOIN_GAME, &Server::join_body(1)));
}

#[test]
fn ownership_goes_to_the_first_who_is_present() {
    let mut server = Server::playing();
    let mut game = server.state.remove_game(1).unwrap();
    assert_eq!(migrate_owner_if_needed(&mut game), None);
    game.players[0].left_room = true;
    assert_eq!(migrate_owner_if_needed(&mut game), Some(b"bob".to_vec()));
    assert_eq!(game.owner_user_id, 2);
    game.players[1].left_room = true;
    assert_eq!(migrate_owner_if_needed(&mut game), None);
    assert_eq!(game.owner_user_id, 2);
}

#[test]
fn names_as_text() {
    let mut server = Server::new();
    server.send(A, msg::USER_LOGIN, b"a\xffb\0e\xfe\0\x01");
    server.create(A, "Game");
    let client = server.state.get_client(A).unwrap();
    assert_eq!(client.username_str(), "a\u{fffd}b");
    assert_eq!(client.emulator_name_str(), "e\u{fffd}");
    assert_eq!(client.username_for_log(), "a\\xffb");
    assert_eq!(client.emulator_name_for_log(), "e\\xfe");
    let game = server.state.get_game(1).unwrap();
    assert_eq!(game.owner_str(), "a\u{fffd}b");
    assert_eq!(game.owner_for_log(), "a\\xffb");
    assert_eq!(game.game_name_str(), "Game");
    assert_eq!(game.game_name_for_log(), "Game");
    assert_eq!(game.emulator_name_str(), "e\u{fffd}");
    assert_eq!(game.emulator_name_for_log(), "e\\xfe");
    let labels = game.metric_labels("uid".to_string());
    assert_eq!(labels.game_uid, "uid");
    assert_eq!(labels.game_name, "Game");
    assert_eq!(labels.emulator_name, "e\\xfe");
    assert_eq!(game.players[0].username_str(), "a\u{fffd}b");
    assert_eq!(game.players[0].username_for_log(), "a\\xffb");
}

#[test]
fn clients_are_found_by_name_and_number() {
    let mut server = Server::new();
    server.login(A, "ann");
    server.login(B, "bob");
    assert_eq!(server.state.find_client_by_username(b"bob").unwrap().0, B);
    assert!(server.state.find_client_by_username(b"cat").is_none());
    assert_eq!(server.state.find_client_by_user_id(1).unwrap().0, A);
    assert!(server.state.find_client_by_user_id(7).is_none());
    assert_eq!(server.state.remove_client_by_username(b"ann").unwrap().0, A);
    assert!(server.state.get_client(A).is_none());
    assert_eq!(server.state.get_all_client_addrs(), vec![B]);
    server.login(B, "new");
    assert!(server.state.find_client_by_username(b"bob").is_none());
    assert_eq!(server.state.client_count(), 2);
}

#[test]
fn text_is_split_into_lines() {
    let lines = |text: &[u8]| split_lines(text);
    assert_eq!(lines(b""), Vec::<Vec<u8>>::new());
    assert_eq!(lines(b"a"), vec![b"a".to_vec()]);
    assert_eq!(lines(b"a\n"), vec![b"a".to_vec()]);
    assert_eq!(lines(b"a\r\n\nb\r"), vec![b"a".to_vec(), vec![], b"b\r".to_vec()]);
    assert_eq!(lines(b"\r\r\n"), vec![b"\r".to_vec()]);
}

#[test]
fn names_and_configuration_stay() {
    let mut server = Server::with(Config {
        main_port: 9000,
        control_port: 9001,
        ..Config::default()
    });
    server.login(A, "ann");
    server.login(B, "bob");
    server.create(A, "Game");
    server.join(B, 1);
    server.start(A);
    server.send(C, msg::USER_LOGIN, b"ann\0emu\0\x01");
    assert!(server.state.get_client(C).is_none());
    server.send(A, msg::USER_QUIT, b"");
    server.login(C, "ann");
    assert_eq!(server.state.find_client_by_username(b"ann").unwrap().0, C);
    assert_eq!(server.state.config().main_port, 9000);
    assert_eq!(server.state.config().control_port, 9001);
}
