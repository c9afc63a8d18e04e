//! Sessions: sequence numbers, timeouts, stalls, and the datagrams that go out.

use direlera_rs::config::Config;
use direlera_rs::handlers::util::Action;
use direlera_rs::handlers::handle_message;
use direlera_rs::kaillera::message_types as msg;
use direlera_rs::kaillera::protocol::{parse_packet, ParseError, ParsedMessage, UDPPacketGenerator};
use direlera_rs::outbox::Outbox;
use direlera_rs::session_manager::{
    addr_string, find_stalled, on_closed, on_expired, pending_logins, select_messages,
    PacketReport, Session, SessionTable, PLAYING_INPUT_TIMEOUT, PRE_LOGIN_TIMEOUT,
    SESSION_TIMEOUT, STALL_THRESHOLD,
};
use direlera_rs::state::{AppState, ServerError};

const A: u64 = (0x7f00_0001 << 16) | 4000;
const B: u64 = (0x0a01_0203 << 16) | 65535;

fn message(number: u16, message_type: u8, data: &[u8]) -> ParsedMessage {
    ParsedMessage {
        message_number: number,
        message_type,
        data: data.to_vec(),
    }
}

fn numbers(messages: &[ParsedMessage]) -> Vec<u16> {
    messages.iter().map(|m| m.message_number).collect()
}

fn packet(messages: &[(u16, u8, &[u8])]) -> Vec<u8> {
    let mut bytes = vec![messages.len() as u8];
    for (number, message_type, data) in messages.iter().rev() {
        bytes.extend_from_slice(&number.to_le_bytes());
        bytes.extend_from_slice(&(data.len() as u16 + 1).to_le_bytes());
        bytes.push(*message_type);
        bytes.extend_from_slice(data);
    }
    bytes
}

fn login(state: &mut AppState, addr: u64, name: &str, acks: usize) {
    let mut body = name.as_bytes().to_vec();
    body.extend_from_slice(b"\0emu\0\x01");
    let mut out = Vec::new();
    let _ = handle_message(message(0, msg::USER_LOGIN, &body), addr, 100, 0, state, &mut out);
    for _ in 0..acks {
        let ack = message(0, msg::CLIENT_TO_SERVER_ACK, &[]);
        let _ = handle_message(ack, addr, 100, 0, state, &mut out);
    }
}

fn send(state: &mut AppState, addr: u64, now: u64, message_type: u8, data: &[u8]) {
    let mut out = Vec::new();
    handle_message(message(0, message_type, data), addr, 100, now, state, &mut out).unwrap();
}

fn chat_lines(out: &[Action]) -> Vec<(u8, Vec<u8>)> {
    out.iter()
        .filter_map(|action| match action {
            Action::Send {
                message_type, data, ..
            } => Some((*message_type, data.clone())),
            _ => None,
        })
        .collect()
}

#[test]
fn addresses_as_text() {
    assert_eq!(addr_string(A), "127.0.0.1:4000");
    assert_eq!(addr_string(B), "10.1.2.3:65535");
}

#[test]
fn messages_are_taken_once_and_in_order() {
    let all = vec![message(4, 1, &[]), message(5, 2, &[]), message(6, 3, &[])];
    let (taken, next) = select_messages(all.clone(), 5);
    assert_eq!(numbers(&taken), vec![5, 6]);
    assert_eq!(next, 7);
    let (taken, next) = select_messages(all.clone(), next);
    assert!(taken.is_empty());
    assert_eq!(next, 7);
    let (taken, next) = select_messages(all, 9);
    assert!(taken.is_empty());
    assert_eq!(next, 9);
    let (taken, next) = select_messages(vec![message(65535, 1, &[]), message(0, 2, &[])], 65535);
    assert_eq!(numbers(&taken), vec![65535, 0]);
    assert_eq!(next, 1);
}

#[test]
fn single_first_message_restarts_the_sequence() {
    let (taken, next) = select_messages(vec![message(0, 3, &[])], 700);
    assert_eq!(numbers(&taken), vec![0]);
    assert_eq!(next, 1);
    let (taken, next) = select_messages(vec![message(0, 3, &[]), message(1, 3, &[])], 700);
    assert!(taken.is_empty());
    assert_eq!(next, 700);
}

#[test]
fn session_learns_who_logs_in() {
    let mut state = AppState::new(Config::default());
    let mut session = Session::new();
    let mut out = Vec::new();
    assert_eq!(session.recv_timeout(), PRE_LOGIN_TIMEOUT);
    let report = session.on_packet(&[], A, 50, 0, &mut state, &mut out);
    assert!(matches!(report, PacketReport::Unreadable(ParseError::Empty)));
    let first = packet(&[(0, msg::USER_LOGIN, b"an\xffn\0emu\0\x01")]);
    let report = session.on_packet(&first, A, 50, 0, &mut state, &mut out);
    assert!(matches!(report, PacketReport::Handled(results) if results == vec![Ok(())]));
    assert_eq!(session.identity, Some(("an\\xffn".to_string(), 1)));
    assert_eq!(session.packet_counter, 1);
    assert_eq!(session.recv_timeout(), SESSION_TIMEOUT);
    let next = packet(&[
        (0, msg::USER_LOGIN, b"an\xffn\0emu\0\x01"),
        (1, msg::GAME_CHAT, b"\0x\0"),
        (2, msg::CLIENT_KEEP_ALIVE, b"\0"),
    ]);
    let report = session.on_packet(&next, A, 60, 0, &mut state, &mut out);
    assert!(matches!(
        report,
        PacketReport::Handled(results) if results == vec![Err(ServerError::NotInGame), Ok(())]
    ));
    assert_eq!(session.packet_counter, 3);
    assert_eq!(state.get_client(A).unwrap().last_activity_secs, 60);
    let bad = packet(&[(3, msg::CLIENT_KEEP_ALIVE, b""), (4, msg::GAME_CACHE, b"\0")]);
    let report = session.on_packet(&bad, A, 61, 0, &mut state, &mut out);
    assert!(matches!(report, PacketReport::Refused(results) if results == vec![Ok(())]));
}

#[test]
fn timeout_of_a_client_is_announced() {
    let mut state = AppState::new(Config::default());
    login(&mut state, A, "ann", 4);
    login(&mut state, B, "bob", 4);
    let mut session = Session::new();
    session.learn_identity(A, &state);
    let mut out = Vec::new();
    session.on_timeout(A, &mut state, &mut out);
    let notice =
        b"Server\0[Server] ann (#1, 127.0.0.1:4000) timed out (keepalive not received)\0".to_vec();
    assert_eq!(
        chat_lines(&out),
        vec![
            (msg::GLOBAL_CHAT, notice.clone()),
            (msg::USER_QUIT, b"ann\0\x01\0timeout\0".to_vec()),
        ]
    );
    assert!(state.get_client(A).is_none());
    let mut out = Vec::new();
    session.on_timeout(A, &mut state, &mut out);
    assert_eq!(chat_lines(&out), vec![(msg::GLOBAL_CHAT, notice)]);
}

#[test]
fn stranger_times_out_silently() {
    let mut state = AppState::new(Config::default());
    login(&mut state, B, "bob", 4);
    let mut out = Vec::new();
    Session::new().on_timeout(A, &mut state, &mut out);
    assert!(out.is_empty());
    on_closed(A, &mut state, &mut out);
    assert!(out.is_empty());
    assert!(state.get_client(B).is_some());
}

#[test]
fn closed_and_expired_sessions_leave_their_rooms() {
    let mut state = AppState::new(Config::default());
    login(&mut state, A, "ann", 4);
    login(&mut state, B, "bob", 4);
    send(&mut state, A, 0, msg::CREATE_GAME, b"\0g\0");
    send(&mut state, B, 0, msg::CREATE_GAME, b"\0h\0");
    let mut out = Vec::new();
    on_closed(A, &mut state, &mut out);
    assert_eq!(
        chat_lines(&out).last().unwrap(),
        &(msg::USER_QUIT, b"ann\0\x01\0disconnected\0".to_vec())
    );
    assert!(state.get_game(1).is_none());
    let mut out = Vec::new();
    on_expired(B, &mut state, &mut out);
    assert_eq!(
        chat_lines(&out).last().unwrap(),
        &(msg::USER_QUIT, b"bob\0\x02\0timeout\0".to_vec())
    );
    assert_eq!(state.game_count(), 0);
    assert_eq!(state.client_count(), 0);
}

#[test]
fn silent_sessions_expire() {
    let mut table = SessionTable::new();
    table.insert(A, 10);
    table.insert(B, 10);
    table.touch(B, 20);
    table.touch(99, 20);
    assert!(!table.contains(99));
    assert!(table.remove_expired(10 + SESSION_TIMEOUT).is_empty());
    assert_eq!(table.remove_expired(11 + SESSION_TIMEOUT), vec![A]);
    assert!(!table.contains(A));
    assert!(table.contains(B));
    assert!(table.remove(B));
    assert!(!table.remove(B));
}

#[test]
fn stalled_and_gone_players_are_found() {
    let mut state = AppState::new(Config::default());
    login(&mut state, A, "ann", 4);
    login(&mut state, B, "bob", 4);
    send(&mut state, A, 0, msg::CREATE_GAME, b"\0g\0");
    send(&mut state, B, 0, msg::JOIN_GAME, &[0, 1, 0, 0, 0, 0, 0, 0, 0, 0, 0, 0, 1]);
    send(&mut state, A, 0, msg::START_GAME, &[0, 0, 0, 0, 0]);
    assert_eq!(find_stalled(&state, PLAYING_INPUT_TIMEOUT), (vec![], vec![]));
    send(&mut state, A, 1000, msg::GAME_DATA, &[0, 1, 0, 7]);
    send(&mut state, B, 2000, msg::GAME_DATA, &[0, 1, 0, 7]);
    assert_eq!(
        find_stalled(&state, 999 + STALL_THRESHOLD),
        (vec![], vec![])
    );
    assert_eq!(
        find_stalled(&state, 1000 + STALL_THRESHOLD),
        (vec![(A, STALL_THRESHOLD)], vec![])
    );
    assert_eq!(
        find_stalled(&state, 1000 + PLAYING_INPUT_TIMEOUT),
        (vec![(B, PLAYING_INPUT_TIMEOUT - 1000)], vec![A])
    );
    send(&mut state, A, 1000, msg::DROP_GAME, &[]);
    assert_eq!(
        find_stalled(&state, 2000 + PLAYING_INPUT_TIMEOUT),
        (vec![], vec![B])
    );
    let mut game = state.remove_game(1).unwrap();
    game.players[1].input_stall_grace = Some(5);
    state.add_game(1, game);
    assert_eq!(find_stalled(&state, 2005), (vec![(B, 5)], vec![]));
    send(&mut state, B, 3000, msg::DROP_GAME, &[]);
    assert_eq!(
        find_stalled(&state, 9000 + PLAYING_INPUT_TIMEOUT),
        (vec![], vec![])
    );
}

#[test]
fn logins_in_progress_are_found() {
    let mut state = AppState::new(Config::default());
    login(&mut state, A, "ann", 3);
    login(&mut state, B, "bob", 4);
    assert_eq!(pending_logins(&state), vec![A]);
    send(&mut state, A, 0, msg::CREATE_GAME, b"\0g\0");
    assert!(pending_logins(&state).is_empty());
}

#[test]
fn outbox_numbers_each_client_on_its_own() {
    let mut outbox = Outbox::new();
    let to_both = Action::Send {
        to: vec![A, B],
        message_type: msg::GLOBAL_CHAT,
        data: vec![1],
    };
    assert!(outbox.perform(&to_both).is_empty());
    assert!(outbox.perform(&Action::StartNumbering { addr: A }).is_empty());
    let sent = outbox.perform(&to_both);
    assert_eq!(sent.len(), 1);
    assert_eq!(sent[0].addr, A);
    outbox.perform(&Action::StartNumbering { addr: B });
    let sent = outbox.perform(&to_both);
    assert_eq!(sent.len(), 2);
    assert_eq!(numbers(&parse_packet(&sent[0].data).unwrap()), vec![0, 1]);
    assert_eq!(numbers(&parse_packet(&sent[1].data).unwrap()), vec![0]);
    assert_eq!(outbox.last_sent(A), Some(sent[0].data.clone()));
    outbox.perform(&Action::CloseSession { addr: A });
    assert_eq!(outbox.last_sent(A), None);
    outbox.perform(&Action::StartNumbering { addr: B });
    assert_eq!(outbox.last_sent(B), None);
    outbox.forget(B);
    assert!(outbox.perform(&to_both).is_empty());
}

#[test]
fn message_outside_of_a_session_is_numbered_from_zero() {
    let mut outbox = Outbox::new();
    let alone = Action::SendAlone {
        to: A,
        message_type: msg::CONNECTION_REJECTED,
        data: vec![5],
    };
    let sent = outbox.perform(&alone);
    let expected = UDPPacketGenerator::new().make_send_packet(msg::CONNECTION_REJECTED, vec![5]);
    assert_eq!(sent[0].data, expected);
    assert_eq!(sent[0].addr, A);
    let long = Action::SendAlone {
        to: A,
        message_type: msg::GAME_DATA,
        data: vec![0; 65535],
    };
    assert!(outbox.perform(&long).is_empty());
}

#[test]
fn lost_datagrams_are_made_up_for() {
    let mut sender = UDPPacketGenerator::new();
    let datagrams: Vec<Vec<u8>> = (0..6u8)
        .map(|i| sender.make_send_packet(msg::GAME_DATA, vec![i]))
        .collect();
    let first = parse_packet(&datagrams[0]).unwrap();
    let (taken, next) = select_messages(first, 0);
    assert_eq!(numbers(&taken), vec![0]);
    let fourth = parse_packet(&datagrams[3]).unwrap();
    let (taken, next) = select_messages(fourth, next);
    assert_eq!(numbers(&taken), vec![1, 2, 3]);
    assert_eq!(taken[1].data, vec![2]);
    let sixth = parse_packet(&datagrams[5]).unwrap();
    let (taken, next) = select_messages(sixth, next);
    assert_eq!(numbers(&taken), vec![4, 5]);
    assert_eq!(next, 6);
}

#[test]
fn nobody_is_in_two_rooms() {
    let mut state = AppState::new(Config::default());
    login(&mut state, A, "ann", 4);
    login(&mut state, B, "bob", 4);
    send(&mut state, A, 0, msg::CREATE_GAME, b"\0g\0");
    send(&mut state, B, 0, msg::CREATE_GAME, b"\0h\0");
    let join = |id: u8| [0, id, 0, 0, 0, 0, 0, 0, 0, 0, 0, 0, 1];
    send(&mut state, B, 0, msg::JOIN_GAME, &join(1));
    assert_eq!(state.get_game(1).unwrap().players.len(), 1);
    send(&mut state, B, 0, msg::QUIT_GAME, &[]);
    send(&mut state, B, 0, msg::JOIN_GAME, &join(1));
    assert_eq!(state.get_game(1).unwrap().players.len(), 2);
    assert!(state.get_game(2).is_none());
    assert_eq!(state.get_client(B).unwrap().game_id, Some(1));
    let mut out = Vec::new();
    on_closed(B, &mut state, &mut out);
    assert_eq!(state.get_game(1).unwrap().players.len(), 1);
}
