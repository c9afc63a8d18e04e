//! The synchronisation layers beyond single frames: whole games, caches over
//! time, and errors.

use direlera_rs::simplest_game_sync::{
    CachedGameSync, CachedPlayerOutput, ClientInput, DelayedGameSync, GameSyncError, InputCache,
    PlayerInput, PlayerOutput, PlayerOutputState, ServerResponse, SimplestGameSync,
};

fn data(bytes: &[u8]) -> ClientInput {
    ClientInput::GameData(bytes.to_vec())
}

fn joined(outputs: &[PlayerOutput], player_id: usize) -> Vec<u8> {
    let mut bytes = Vec::new();
    for output in outputs {
        if output.player_id == player_id {
            bytes.extend_from_slice(&output.output);
        }
    }
    bytes
}

fn decode(cache: &mut Vec<Vec<u8>>, response: &ServerResponse) -> Vec<u8> {
    match response {
        ServerResponse::GameData(bytes) => {
            if cache.len() >= 256 {
                cache.remove(0);
            }
            cache.push(bytes.clone());
            bytes.clone()
        }
        ServerResponse::GameCache(pos) => cache[*pos as usize].clone(),
    }
}

#[test]
fn every_player_is_sent_the_same_rounds() {
    let mut sync = SimplestGameSync::new(vec![1, 2]);
    let mut outputs = Vec::new();
    for i in 0..4u8 {
        outputs.extend(sync.process_client_input(0, vec![i]).unwrap());
    }
    outputs.extend(sync.process_client_input(1, vec![10, 11]).unwrap());
    outputs.extend(sync.process_client_input(1, vec![12, 13]).unwrap());
    let stream = vec![0, 10, 1, 11, 2, 12, 3, 13];
    assert_eq!(joined(&outputs, 0), stream);
    assert_eq!(joined(&outputs, 1), stream);
    let to_second: Vec<usize> = outputs
        .iter()
        .filter(|o| o.player_id == 1)
        .map(|o| o.output.len())
        .collect();
    assert_eq!(to_second, vec![4, 4]);
}

#[test]
fn rounds_hold_frames_in_order_and_then_zeros() {
    let mut sync = SimplestGameSync::new(vec![1, 1]);
    sync.process_client_input(0, vec![1, 1]).unwrap();
    sync.process_client_input(0, vec![2, 2]).unwrap();
    let freed = sync.mark_player_dropped(0).unwrap();
    assert!(freed.is_empty());
    let mut outputs = Vec::new();
    for i in 5..8u8 {
        outputs.extend(sync.process_client_input(1, vec![i, i]).unwrap());
    }
    assert_eq!(
        joined(&outputs, 1),
        vec![1, 1, 5, 5, 2, 2, 6, 6, 0, 0, 7, 7]
    );
}

#[test]
fn drop_releases_what_the_others_wait_for() {
    let mut sync = SimplestGameSync::new(vec![1, 1]);
    sync.process_client_input(1, vec![9]).unwrap();
    let freed = sync.mark_player_dropped(0).unwrap();
    assert_eq!(freed.len(), 2);
    assert_eq!(freed[0].output, vec![0, 9]);
    assert!(sync.is_player_dropped(0));
    assert!(!sync.is_player_dropped(1));
    assert!(!sync.is_player_dropped(2));
    assert!(!sync.all_players_dropped());
    sync.mark_player_dropped(1).unwrap();
    assert!(sync.all_players_dropped());
}

#[test]
fn input_shorter_than_the_delay_is_ignored() {
    let mut sync = SimplestGameSync::new(vec![2]);
    assert!(sync.process_client_input(0, vec![7]).unwrap().is_empty());
    assert_eq!(sync.game_data_size, 0);
    let outputs = sync.process_client_input(0, vec![1, 2, 3, 4, 5]).unwrap();
    assert_eq!(sync.game_data_size, 2);
    assert_eq!(outputs.len(), 1);
    assert_eq!(outputs[0].output, vec![1, 2, 3, 4]);
    let outputs = sync.process_client_input(0, vec![6, 7, 8, 9]).unwrap();
    assert_eq!(outputs.len(), 1);
    assert_eq!(outputs[0].output, vec![5, 6, 7]);
}

#[test]
fn drain_without_input_gives_nothing() {
    let mut sync = SimplestGameSync::new(vec![1, 1]);
    assert!(sync.drain_ready_inputs().unwrap().is_empty());
    sync.mark_player_dropped(0).unwrap();
    assert!(sync.drain_ready_inputs().unwrap().is_empty());
}

#[test]
fn combiner_refuses_unknown_players() {
    let mut sync = SimplestGameSync::new(vec![1]);
    assert_eq!(
        sync.process_client_input(3, vec![1]),
        Err(GameSyncError::InvalidPlayerId {
            player_id: 3,
            player_count: 1
        })
    );
    assert_eq!(
        sync.mark_player_dropped(1),
        Err(GameSyncError::InvalidPlayerId {
            player_id: 1,
            player_count: 1
        })
    );
}

#[test]
fn mirror_cache_reads_every_output_past_eviction() {
    let mut sync = CachedGameSync::new(vec![1]);
    let mut cache = Vec::new();
    let mut cached = 0;
    for i in 0..700u16 {
        let frame = vec![(i % 300 / 256) as u8, (i % 300 % 256) as u8, (i % 7) as u8];
        let (outputs, _, _) = sync.process_client_input(0, data(&frame)).unwrap();
        assert_eq!(outputs.len(), 1);
        if matches!(outputs[0].response, ServerResponse::GameCache(_)) {
            cached += 1;
        }
        assert_eq!(decode(&mut cache, &outputs[0].response), frame);
    }
    assert_eq!(cached, 0);
    for _ in 0..3 {
        for i in 690..700u16 {
            let frame = vec![(i % 300 / 256) as u8, (i % 300 % 256) as u8, (i % 7) as u8];
            let (outputs, _, _) = sync.process_client_input(0, data(&frame)).unwrap();
            assert!(matches!(outputs[0].response, ServerResponse::GameCache(_)));
            assert_eq!(decode(&mut cache, &outputs[0].response), frame);
        }
    }
}

#[test]
fn milestones_and_overflow_are_reported() {
    let mut sync = CachedGameSync::new(vec![1]);
    let mut milestones = Vec::new();
    let mut first_overflow = None;
    for i in 0..258u16 {
        let frame = vec![(i / 256) as u8, (i % 256) as u8];
        let (_, overflowed, milestone) = sync.process_client_input(0, data(&frame)).unwrap();
        if let Some(size) = milestone {
            milestones.push((i, size));
        }
        if overflowed && first_overflow.is_none() {
            first_overflow = Some(i);
        }
    }
    assert_eq!(milestones, vec![(63, 64), (127, 128), (191, 192), (255, 256)]);
    assert_eq!(first_overflow, Some(256));
}

#[test]
fn cache_position_does_what_its_bytes_do() {
    let mut by_bytes = CachedGameSync::new(vec![1, 1]);
    let mut by_position = CachedGameSync::new(vec![1, 1]);
    for sync in [&mut by_bytes, &mut by_position] {
        sync.process_client_input(0, data(&[1])).unwrap();
        sync.process_client_input(1, data(&[2])).unwrap();
        sync.process_client_input(1, data(&[3])).unwrap();
    }
    let a = by_bytes.process_client_input(0, data(&[1])).unwrap();
    let b = by_position
        .process_client_input(0, ClientInput::GameCache(0))
        .unwrap();
    assert_eq!(a, b);
}

#[test]
fn dropped_player_is_ignored() {
    let mut sync = CachedGameSync::new(vec![1, 1]);
    sync.mark_player_dropped(0).unwrap();
    assert!(sync.is_player_dropped(0));
    let (outputs, _, _) = sync.process_client_input(0, data(&[1, 2])).unwrap();
    assert!(outputs.is_empty());
    let (outputs, _, _) = sync.process_client_input(1, data(&[3, 4])).unwrap();
    assert_eq!(
        outputs[1],
        CachedPlayerOutput {
            player_id: 1,
            response: ServerResponse::GameData(vec![0, 0, 3, 4])
        }
    );
    assert!(sync.mark_player_dropped(2).is_err());
}

#[test]
fn newest_of_equal_entries_is_found() {
    let mut cache = InputCache::default();
    assert!(cache.is_empty());
    cache.push(vec![1]);
    cache.push(vec![2]);
    assert!(!cache.push(vec![1]));
    assert_eq!(cache.find(&[1]), Some(2));
    assert_eq!(cache.find(&[2]), Some(1));
    assert_eq!(cache.find(&[3]), None);
    assert_eq!(cache.get(3), None);
    assert_eq!(cache.len(), 3);
}

#[test]
fn no_delay_is_transparent() {
    let mut bare = CachedGameSync::new(vec![1, 1]);
    let mut layered = DelayedGameSync::new(CachedGameSync::new(vec![1, 1]), 0);
    let inputs = vec![
        (0, data(&[1])),
        (1, data(&[2])),
        (0, ClientInput::GameCache(0)),
        (1, ClientInput::GameCache(0)),
        (0, data(&[3])),
        (1, ClientInput::GameCache(0)),
        (0, ClientInput::GameCache(1)),
        (1, data(&[2])),
    ];
    for (player, input) in inputs {
        assert_eq!(
            bare.process_client_input(player, input.clone()).unwrap(),
            layered.process_client_input(player, input).unwrap()
        );
    }
    assert_eq!(
        bare.mark_player_dropped(0).unwrap(),
        layered.mark_player_dropped(0).unwrap()
    );
}

#[test]
fn cache_positions_are_resolved_before_the_delay() {
    let inner = CachedGameSync::new(vec![1]).with_output_cache_disabled(true);
    let mut sync = DelayedGameSync::new(inner, 2);
    sync.process_client_input(0, data(&[7])).unwrap();
    sync.process_client_input(0, ClientInput::GameCache(0)).unwrap();
    let (first, _, _) = sync.process_client_input(0, data(&[8])).unwrap();
    let (second, _, _) = sync.process_client_input(0, data(&[9])).unwrap();
    assert_eq!(first[0].response, ServerResponse::GameData(vec![7]));
    assert_eq!(second[0].response, ServerResponse::GameData(vec![7]));
    let (third, _, _) = sync.process_client_input(0, ClientInput::GameCache(2)).unwrap();
    assert_eq!(third[0].response, ServerResponse::GameData(vec![9]));
}

#[test]
fn drop_discards_saved_startup_inputs() {
    let inner = CachedGameSync::new(vec![1, 1]).with_output_cache_disabled(true);
    let mut sync = DelayedGameSync::with_player_delays(inner, vec![1, 0]);
    sync.process_client_input(0, data(&[5])).unwrap();
    sync.mark_player_dropped(0).unwrap();
    let (outputs, _, _) = sync.process_client_input(1, data(&[6])).unwrap();
    assert_eq!(outputs[1].response, ServerResponse::GameData(vec![0, 6]));
    assert!(sync.is_player_dropped(0));
    assert!(!sync.all_players_dropped());
    sync.mark_player_dropped(1).unwrap();
    assert!(sync.all_players_dropped());
    assert_eq!(sync.player_count(), 2);
    assert_eq!(sync.get_player_delay(1), 1);
}

#[test]
fn delay_layer_refuses_what_the_cache_layer_refuses() {
    let mut sync = DelayedGameSync::new(CachedGameSync::new(vec![1]), 3);
    assert_eq!(
        sync.process_client_input(1, data(&[1])),
        Err(GameSyncError::InvalidPlayerId {
            player_id: 1,
            player_count: 1
        })
    );
    assert_eq!(
        sync.process_client_input(0, ClientInput::GameCache(4)),
        Err(GameSyncError::CachePositionNotFound {
            player_id: 0,
            position: 4
        })
    );
    assert!(sync.mark_player_dropped(1).is_err());
}

#[test]
fn errors_read_as_text() {
    assert_eq!(
        GameSyncError::InvalidPlayerId {
            player_id: 12,
            player_count: 4
        }
        .to_string(),
        "Invalid player_id: 12 (valid range: 0..4)"
    );
    assert_eq!(
        GameSyncError::CachePositionNotFound {
            player_id: 3,
            position: 255
        }
        .to_string(),
        "Cache position 255 not found for player 3"
    );
    assert_eq!(
        GameSyncError::BufferInconsistency {
            message: "lost".to_string()
        }
        .to_string(),
        "Buffer inconsistency: lost"
    );
}

#[test]
fn player_input_is_cut_into_pairs() {
    let mut input = PlayerInput::new(3);
    assert_eq!(input.input_size, 6);
    assert_eq!(input.delay, 3);
    assert_eq!(input.distributed_count, 0);
    input.add_input(vec![1, 2, 3, 4, 5]);
    input.add_input(vec![6]);
    input.add_input(vec![7, 8]);
    assert_eq!(input.frames, vec![vec![1, 2], vec![3, 4], vec![7, 8]]);
    assert!(input.client_cache.is_empty());
}

#[test]
fn player_output_interleaves_the_buffers() {
    let mut state = PlayerOutputState::new(2, 2);
    assert!(!state.can_send());
    state.send_buffers[0].push_back(vec![1]);
    state.send_buffers[0].push_back(vec![2]);
    state.send_buffers[1].push_back(vec![10]);
    assert!(!state.can_send());
    state.send_buffers[1].push_back(vec![20]);
    state.send_buffers[1].push_back(vec![30]);
    assert!(state.can_send());
    assert_eq!(state.extract_combined(), vec![1, 10, 2, 20]);
    assert_eq!(state.extract_combined(), vec![30]);
    assert!(PlayerOutputState::new(0, 5).can_send());
}

#[test]
fn outputs_hold_every_frame_once() {
    let mut sync = SimplestGameSync::new(vec![1, 2]);
    let mut to_first = Vec::new();
    let mut to_second = Vec::new();
    let inputs: Vec<(usize, Vec<u8>)> = vec![
        (1, vec![10, 11]),
        (0, vec![1]),
        (0, vec![2]),
        (1, vec![12, 13]),
        (0, vec![3]),
        (0, vec![4]),
        (0, vec![5]),
    ];
    for (player, input) in inputs {
        for output in sync.process_client_input(player, input).unwrap() {
            if output.player_id == 0 {
                to_first.push(output.output);
            } else {
                to_second.push(output.output);
            }
        }
    }
    assert_eq!(
        to_first,
        vec![vec![1, 10], vec![2, 11], vec![3, 12], vec![4, 13]]
    );
    assert_eq!(to_second, vec![vec![1, 10, 2, 11], vec![3, 12, 4, 13]]);
}

#[test]
fn startup_schedule_outlives_a_drop() {
    let inner = CachedGameSync::new(vec![1, 1]).with_output_cache_disabled(true);
    let mut sync = DelayedGameSync::new(inner, 1);
    let sent = |sync: &mut DelayedGameSync, byte: u8| {
        let (outputs, _, _) = sync
            .process_client_input(0, ClientInput::GameData(vec![byte]))
            .unwrap();
        outputs
            .into_iter()
            .filter(|output| output.player_id == 0)
            .map(|output| output.response)
            .collect::<Vec<_>>()
    };
    assert_eq!(sent(&mut sync, 1), vec![ServerResponse::GameData(vec![0, 0])]);
    sync.mark_player_dropped(1).unwrap();
    assert_eq!(sent(&mut sync, 2), vec![ServerResponse::GameData(vec![1, 0])]);
    assert_eq!(sent(&mut sync, 3), vec![ServerResponse::GameData(vec![3, 0])]);
}

#[test]
fn second_drop_of_a_player_changes_nothing() {
    let inner = CachedGameSync::new(vec![1, 1]).with_output_cache_disabled(true);
    let mut sync = DelayedGameSync::new(inner, 0);
    sync.process_client_input(1, data(&[9])).unwrap();
    let first = sync.mark_player_dropped(0).unwrap();
    assert_eq!(first.len(), 2);
    let second = sync.mark_player_dropped(0).unwrap();
    assert!(second.is_empty());
    assert!(sync.is_player_dropped(0));
    assert!(!sync.is_player_dropped(1));
    let (outputs, _, _) = sync.process_client_input(1, data(&[8])).unwrap();
    assert_eq!(outputs[1].response, ServerResponse::GameData(vec![0, 8]));
}

#[test]
fn batch_of_a_huge_delay_never_fills() {
    let mut sync = SimplestGameSync::new(vec![1, usize::MAX]);
    sync.mark_player_dropped(1).unwrap();
    let outputs = sync.process_client_input(0, vec![7]).unwrap();
    assert_eq!(outputs.len(), 1);
    assert_eq!(outputs[0].player_id, 0);
    assert_eq!(outputs[0].output, vec![7, 0]);
}
