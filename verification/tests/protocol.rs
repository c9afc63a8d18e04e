//! The wire format: datagrams, message bodies, probes.

use direlera_rs::control::{control_reply, main_port_reply};
use direlera_rs::kaillera::message_types as msg;
use direlera_rs::kaillera::protocol::{parse_packet, ParseError, ParsedMessage, UDPPacketGenerator};
use direlera_rs::packet_util::{
    build_close_game_packet, build_connection_rejected_packet, build_drop_game_packet,
    build_game_cache_packet, build_game_chat_packet, build_game_data_packet,
    build_global_chat_packet, build_join_game_packet, build_new_game_notification,
    build_player_information_packet, build_quit_game_packet, build_ready_to_play_packet,
    build_server_information_packet, build_server_status_packet,
    build_server_to_client_ack_packet, build_start_game_packet, build_update_game_status_packet,
    build_user_joined_packet, build_user_quit_packet, GameEntry, PlayerEntry, UserEntry,
};

#[test]
fn datagram_lists_the_oldest_message_first() {
    let bytes = [2, 5, 0, 3, 0, 0x07, 8, 9, 4, 0, 1, 0, 0x09, 0xEE];
    let messages = parse_packet(&bytes).unwrap();
    assert_eq!(
        messages,
        vec![
            ParsedMessage {
                message_number: 4,
                message_type: 0x09,
                data: vec![]
            },
            ParsedMessage {
                message_number: 5,
                message_type: 0x07,
                data: vec![8, 9]
            },
        ]
    );
    assert_eq!(parse_packet(&[0]).unwrap(), vec![]);
}

#[test]
fn broken_datagrams_are_refused() {
    assert_eq!(parse_packet(&[]), Err(ParseError::Empty));
    assert_eq!(parse_packet(&[1]), Err(ParseError::Truncated));
    assert_eq!(parse_packet(&[1, 0, 0, 1]), Err(ParseError::Truncated));
    assert_eq!(parse_packet(&[1, 0, 0, 2, 0, 7]), Err(ParseError::Truncated));
    assert_eq!(parse_packet(&[1, 0, 0, 0, 0]), Err(ParseError::NoType));
    assert_eq!(
        parse_packet(&[2, 0, 0, 1, 0, 7, 1, 0]),
        Err(ParseError::Truncated)
    );
}

#[test]
fn generator_numbers_and_repeats_messages() {
    let mut generator = UDPPacketGenerator::new();
    assert_eq!(generator.last_sent(), None);
    let first = generator.make_send_packet(msg::SERVER_TO_CLIENT_ACK, vec![1]);
    assert_eq!(first, vec![1, 0, 0, 2, 0, 0x05, 1]);
    assert_eq!(generator.last_sent(), Some(first));
    for i in 1..5u8 {
        generator.make_send_packet(msg::GLOBAL_CHAT, vec![i]);
    }
    let last = generator.last_sent().unwrap();
    let numbers: Vec<(u16, Vec<u8>)> = parse_packet(&last)
        .unwrap()
        .into_iter()
        .map(|m| (m.message_number, m.data))
        .collect();
    assert_eq!(numbers, vec![(2, vec![2]), (3, vec![3]), (4, vec![4])]);
}

#[test]
fn generator_wraps_its_numbers() {
    let mut generator = UDPPacketGenerator::new();
    for _ in 0..65536u32 {
        generator.make_send_packet(0, vec![]);
    }
    let packet = generator.make_send_packet(0, vec![]);
    let numbers: Vec<u16> = parse_packet(&packet)
        .unwrap()
        .iter()
        .map(|m| m.message_number)
        .collect();
    assert_eq!(numbers, vec![65534, 65535, 0]);
}

#[test]
fn user_bodies() {
    assert_eq!(
        build_server_to_client_ack_packet(),
        vec![0, 0, 0, 0, 0, 1, 0, 0, 0, 2, 0, 0, 0, 3, 0, 0, 0]
    );
    assert_eq!(
        build_user_quit_packet(b"ab", 0x0102, b"bye"),
        b"ab\0\x02\x01bye\0".to_vec()
    );
    assert_eq!(
        build_connection_rejected_packet(b"server", 0, b"no"),
        b"server\0\0\0no\0".to_vec()
    );
    assert_eq!(
        build_user_joined_packet(b"ab", 3, 0x01020304, 1),
        b"ab\0\x03\0\x04\x03\x02\x01\x01".to_vec()
    );
    assert_eq!(build_global_chat_packet(b"a", b"hi"), b"a\0hi\0".to_vec());
    assert_eq!(build_game_chat_packet(b"a", b"hi"), b"a\0hi\0".to_vec());
    assert_eq!(
        build_server_information_packet(b"Server", b"x"),
        b"Server\0x\0".to_vec()
    );
}

#[test]
fn room_bodies() {
    assert_eq!(
        build_new_game_notification(b"u", b"game", b"emu", 7),
        b"u\0game\0emu\0\x07\0\0\0".to_vec()
    );
    assert_eq!(
        build_update_game_status_packet(0x01020304, 1, 2, 4),
        vec![0, 4, 3, 2, 1, 1, 2, 4]
    );
    assert_eq!(
        build_join_game_packet(b"u", 5, 6, 1),
        b"\0\0\0\0\0u\0\x05\0\0\0\x06\0\x01".to_vec()
    );
    assert_eq!(build_quit_game_packet(b"u", 258), b"u\0\x02\x01".to_vec());
    assert_eq!(build_close_game_packet(9), vec![0, 9, 0, 0, 0]);
    assert_eq!(build_start_game_packet(1, 2, 3), vec![0, 1, 0, 2, 3]);
    assert_eq!(build_drop_game_packet(b"u", 2), b"u\0\x02".to_vec());
    assert_eq!(build_game_data_packet(&[8, 9]), vec![0, 2, 0, 8, 9]);
    assert_eq!(build_game_cache_packet(200), vec![0, 200]);
    assert_eq!(build_ready_to_play_packet(), vec![0]);
    assert_eq!(build_game_data_packet(&vec![0; 65537])[..3], [0, 1, 0]);
}

#[test]
fn listing_bodies() {
    let players = vec![PlayerEntry {
        username: b"p".to_vec(),
        ping: 1,
        user_id: 2,
        conn_type: 3,
    }];
    assert_eq!(
        build_player_information_packet(&players),
        b"\0\x01\0\0\0p\0\x01\0\0\0\x02\0\x03".to_vec()
    );
    let users = vec![UserEntry {
        username: b"u".to_vec(),
        ping: 1,
        player_status: 2,
        user_id: 3,
        conn_type: 4,
    }];
    let games = vec![GameEntry {
        game_name: b"g".to_vec(),
        game_id: 5,
        emulator_name: b"e".to_vec(),
        owner: b"o".to_vec(),
        num_players: 12,
        max_players: 4,
        game_status: 1,
    }];
    assert_eq!(
        build_server_status_packet(&users, &games),
        b"\0\x01\0\0\0\x01\0\0\0u\0\x01\0\0\0\x02\x03\0\x04g\0\x05\0\0\0e\0o\x0012/4\0\x01".to_vec()
    );
    assert_eq!(
        build_server_status_packet(&[], &[]),
        vec![0, 0, 0, 0, 0, 0, 0, 0, 0]
    );
}

#[test]
fn probes_are_answered() {
    assert_eq!(main_port_reply(b"PING\0"), Some(b"PONG\0".to_vec()));
    assert_eq!(main_port_reply(b"PING"), None);
    assert_eq!(
        control_reply(b"HELLO0.83\0", 8080),
        Some(b"HELLOD00D8080\0".to_vec())
    );
    assert_eq!(control_reply(b"PING\0", 8080), Some(b"PONG\0".to_vec()));
    assert_eq!(control_reply(b"HELLO0.82\0", 8080), None);
}
