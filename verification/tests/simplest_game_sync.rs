//! Frame synchronisation: combining, caching and the startup delay.

use direlera_rs::simplest_game_sync::{
    CachedGameSync, CachedPlayerOutput, ClientInput, DelayedGameSync, GameSyncError, InputCache,
    ServerResponse,
};

#[test]
fn test_equal_delays() {
    let mut manager = CachedGameSync::new(vec![1, 1]);

    let outputs = manager
        .process_client_input(0, ClientInput::GameData(vec![0x01, 0x02]))
        .unwrap();
    assert_eq!(outputs.0.len(), 0);

    let outputs = manager
        .process_client_input(1, ClientInput::GameData(vec![0x03, 0x04]))
        .unwrap();
    assert_eq!(outputs.0.len(), 2);

    assert_eq!(outputs.0[0].player_id, 0);
    assert_eq!(outputs.0[1].player_id, 1);

    match &outputs.0[0].response {
        ServerResponse::GameData(data) => {
            assert_eq!(data, &vec![0x01, 0x02, 0x03, 0x04]);
        }
        _ => panic!("P0's first output should be GameData"),
    }

    match &outputs.0[1].response {
        ServerResponse::GameData(data) => {
            assert_eq!(data, &vec![0x01, 0x02, 0x03, 0x04]);
        }
        _ => panic!("P1's first output should be GameData"),
    }

    manager
        .process_client_input(0, ClientInput::GameCache(0))
        .unwrap();
    let outputs = manager
        .process_client_input(1, ClientInput::GameCache(0))
        .unwrap();

    assert_eq!(outputs.0.len(), 2);
    assert!(matches!(
        outputs.0[0].response,
        ServerResponse::GameCache(_)
    ));
    assert!(matches!(
        outputs.0[1].response,
        ServerResponse::GameCache(_)
    ));
}

#[test]
fn test_equal_delays_drop() {
    let mut manager = CachedGameSync::new(vec![1, 1]);
    manager
        .process_client_input(0, ClientInput::GameData(vec![0x01, 0x02, 0x03]))
        .unwrap();
    let outputs = manager
        .process_client_input(1, ClientInput::GameData(vec![0x04, 0x05, 0x06]))
        .unwrap();
    assert_eq!(
        outputs.0,
        vec![
            CachedPlayerOutput {
                player_id: 0,
                response: ServerResponse::GameData(vec![0x01, 0x02, 0x03, 0x04, 0x05, 0x06])
            },
            CachedPlayerOutput {
                player_id: 1,
                response: ServerResponse::GameData(vec![0x01, 0x02, 0x03, 0x04, 0x05, 0x06])
            },
        ]
    )
}

#[test]
fn test_different_delays() {
    let mut manager = CachedGameSync::new(vec![1, 2]);

    let outputs = manager
        .process_client_input(0, ClientInput::GameData(vec![0x01, 0x00]))
        .unwrap();
    assert_eq!(outputs.0.len(), 0);

    manager
        .process_client_input(0, ClientInput::GameData(vec![0x02, 0x00]))
        .unwrap();
    let outputs = manager
        .process_client_input(0, ClientInput::GameData(vec![0x03, 0x00]))
        .unwrap();
    assert_eq!(outputs.0.len(), 0);

    let outputs = manager
        .process_client_input(1, ClientInput::GameData(vec![0xAA, 0xBB, 0xCC, 0xDD]))
        .unwrap();

    let p0_outputs: Vec<_> = outputs.0.iter().filter(|o| o.player_id == 0).collect();
    let p1_outputs: Vec<_> = outputs.0.iter().filter(|o| o.player_id == 1).collect();

    assert_eq!(
        p0_outputs.len(),
        2,
        "P0 should get 2 outputs (one per bundle)"
    );

    match &p0_outputs[0].response {
        ServerResponse::GameData(data) => {
            assert_eq!(
                data,
                &vec![0x01, 0x00, 0xAA, 0xBB],
                "P0's first output should be Bundle 1"
            );
        }
        _ => panic!("P0's first output should be GameData"),
    }

    match &p0_outputs[1].response {
        ServerResponse::GameData(data) => {
            assert_eq!(
                data,
                &vec![0x02, 0x00, 0xCC, 0xDD],
                "P0's second output should be Bundle 2"
            );
        }
        _ => panic!("P0's second output should be GameData"),
    }

    assert_eq!(
        p1_outputs.len(),
        1,
        "P1 should get 1 output (after 2 bundles)"
    );

    match &p1_outputs[0].response {
        ServerResponse::GameData(data) => {
            assert_eq!(
                data,
                &vec![0x01, 0x00, 0xAA, 0xBB, 0x02, 0x00, 0xCC, 0xDD],
                "P1's output should contain both bundles"
            );
        }
        _ => panic!("P1's output should be GameData"),
    }
}

#[test]
fn test_cache_mechanism() {
    let mut manager = CachedGameSync::new(vec![1, 1]);

    manager
        .process_client_input(0, ClientInput::GameData(vec![0x00, 0x00]))
        .unwrap();
    let outputs = manager
        .process_client_input(1, ClientInput::GameData(vec![0x00, 0x00]))
        .unwrap();

    assert_eq!(outputs.0.len(), 2);
    assert!(matches!(outputs.0[0].response, ServerResponse::GameData(_)));

    manager
        .process_client_input(0, ClientInput::GameCache(0))
        .unwrap();
    let outputs = manager
        .process_client_input(1, ClientInput::GameCache(0))
        .unwrap();

    let has_cache = outputs
        .0
        .iter()
        .any(|o| matches!(o.response, ServerResponse::GameCache(_)));
    assert!(has_cache);
}

#[test]
fn test_output_cache_disabled_always_game_data() {
    let mut manager = CachedGameSync::new(vec![1, 1]).with_output_cache_disabled(true);

    manager
        .process_client_input(0, ClientInput::GameData(vec![0x00, 0x00]))
        .unwrap();
    let outputs = manager
        .process_client_input(1, ClientInput::GameData(vec![0x00, 0x00]))
        .unwrap();
    assert!(outputs
        .0
        .iter()
        .all(|o| matches!(o.response, ServerResponse::GameData(_))));

    manager
        .process_client_input(0, ClientInput::GameData(vec![0x00, 0x00]))
        .unwrap();
    let outputs = manager
        .process_client_input(1, ClientInput::GameData(vec![0x00, 0x00]))
        .unwrap();
    assert!(
        outputs
            .0
            .iter()
            .all(|o| matches!(o.response, ServerResponse::GameData(_))),
        "output cache disabled must never emit GameCache"
    );
}

#[test]
fn test_three_players() {
    let mut manager = CachedGameSync::new(vec![1, 1, 2]);

    manager
        .process_client_input(0, ClientInput::GameData(vec![0x01, 0x00]))
        .unwrap();
    let outputs = manager
        .process_client_input(1, ClientInput::GameData(vec![0x02, 0x00]))
        .unwrap();

    assert_eq!(outputs.0.len(), 0); // P2 hasn't sent input yet

    let outputs = manager
        .process_client_input(2, ClientInput::GameData(vec![0x03, 0x00, 0x04, 0x00]))
        .unwrap();

    assert!(outputs.0.len() >= 2);
    let p0_outputs: Vec<_> = outputs.0.iter().filter(|o| o.player_id == 0).collect();
    let p1_outputs: Vec<_> = outputs.0.iter().filter(|o| o.player_id == 1).collect();

    assert_eq!(p0_outputs.len(), 1);
    assert_eq!(p1_outputs.len(), 1);
}

#[test]
fn test_gd_gc_pattern_delay_1() {
    let mut manager = CachedGameSync::new(vec![1, 1]);

    manager
        .process_client_input(0, ClientInput::GameData(vec![0xAA, 0xBB]))
        .unwrap();
    let outputs = manager
        .process_client_input(1, ClientInput::GameData(vec![0xCC, 0xDD]))
        .unwrap();
    assert_eq!(outputs.0.len(), 2);

    manager
        .process_client_input(0, ClientInput::GameCache(0))
        .unwrap();
    let outputs = manager
        .process_client_input(1, ClientInput::GameCache(0))
        .unwrap();
    assert!(matches!(
        outputs.0[0].response,
        ServerResponse::GameCache(_)
    ));

    manager
        .process_client_input(0, ClientInput::GameCache(0))
        .unwrap();
    let outputs = manager
        .process_client_input(1, ClientInput::GameCache(0))
        .unwrap();
    assert!(matches!(
        outputs.0[0].response,
        ServerResponse::GameCache(_)
    ));

    manager
        .process_client_input(0, ClientInput::GameData(vec![0x11, 0x22]))
        .unwrap();
    let outputs = manager
        .process_client_input(1, ClientInput::GameData(vec![0x33, 0x44]))
        .unwrap();
    assert!(matches!(outputs.0[0].response, ServerResponse::GameData(_)));
}

#[test]
fn test_gd_gc_pattern_delay_2() {
    let mut manager = CachedGameSync::new(vec![2, 2]);

    manager
        .process_client_input(0, ClientInput::GameData(vec![0xAA, 0xBB, 0xAA, 0xBB]))
        .unwrap();
    let outputs = manager
        .process_client_input(1, ClientInput::GameData(vec![0xCC, 0xDD, 0xCC, 0xDD]))
        .unwrap();
    assert_eq!(outputs.0.len(), 2);

    manager
        .process_client_input(0, ClientInput::GameCache(0))
        .unwrap();
    let outputs = manager
        .process_client_input(1, ClientInput::GameCache(0))
        .unwrap();
    assert!(matches!(
        outputs.0[0].response,
        ServerResponse::GameCache(_)
    ));
}

#[test]
fn test_gd_gc_creates_new_combined() {
    let mut manager = CachedGameSync::new(vec![1, 1]);

    manager
        .process_client_input(0, ClientInput::GameData(vec![0x01, 0x02]))
        .unwrap();
    manager
        .process_client_input(1, ClientInput::GameData(vec![0x03, 0x04]))
        .unwrap();

    manager
        .process_client_input(0, ClientInput::GameData(vec![0x05, 0x06]))
        .unwrap();
    let outputs = manager
        .process_client_input(1, ClientInput::GameCache(0))
        .unwrap();

    match &outputs.0[0].response {
        ServerResponse::GameData(data) => {
            assert_eq!(data, &vec![0x05, 0x06, 0x03, 0x04]);
        }
        _ => panic!("Should be GameData"),
    }
}

#[test]
fn test_gc_gc_creates_new_combined() {
    let mut manager = CachedGameSync::new(vec![1, 1]);

    manager
        .process_client_input(0, ClientInput::GameData(vec![0x01, 0x02]))
        .unwrap();
    manager
        .process_client_input(1, ClientInput::GameData(vec![0x03, 0x04]))
        .unwrap();

    manager
        .process_client_input(0, ClientInput::GameCache(0))
        .unwrap();
    manager
        .process_client_input(1, ClientInput::GameData(vec![0x05, 0x06]))
        .unwrap();

    manager
        .process_client_input(0, ClientInput::GameData(vec![0x07, 0x08]))
        .unwrap();
    manager
        .process_client_input(1, ClientInput::GameCache(0))
        .unwrap();

    manager
        .process_client_input(0, ClientInput::GameCache(0))
        .unwrap();
    let outputs = manager
        .process_client_input(1, ClientInput::GameCache(1))
        .unwrap();
    assert!(matches!(
        outputs.0[0].response,
        ServerResponse::GameCache(_)
    ));

    manager
        .process_client_input(0, ClientInput::GameCache(1))
        .unwrap();
    let outputs = manager
        .process_client_input(1, ClientInput::GameCache(1))
        .unwrap();
    match &outputs.0[0].response {
        ServerResponse::GameData(_) => {}
        _ => panic!("Should be GameData (new combination)"),
    }
}

#[test]
fn test_delay_2_with_4_bytes_succeeds() {
    let mut manager = CachedGameSync::new(vec![2, 2]);

    manager
        .process_client_input(0, ClientInput::GameData(vec![0xAA, 0xBB, 0xCC, 0xDD]))
        .unwrap();
    let outputs = manager
        .process_client_input(1, ClientInput::GameData(vec![0x11, 0x22, 0x33, 0x44]))
        .unwrap();

    assert_eq!(outputs.0.len(), 2);
}

#[test]
fn test_invalid_player_id() {
    let mut manager = CachedGameSync::new(vec![1, 1]);
    let result = manager.process_client_input(2, ClientInput::GameData(vec![0x01, 0x02]));

    assert!(result.is_err());
    assert!(matches!(
        result.unwrap_err(),
        GameSyncError::InvalidPlayerId { .. }
    ));
}

#[test]
fn test_cache_position_not_found() {
    let mut manager = CachedGameSync::new(vec![1, 1]);
    let result = manager.process_client_input(0, ClientInput::GameCache(0));

    assert!(result.is_err());
    assert!(matches!(
        result.unwrap_err(),
        GameSyncError::CachePositionNotFound { .. }
    ));
}

#[test]
fn test_player_delay() {
    let manager = CachedGameSync::new(vec![1, 2, 3]);
    assert_eq!(manager.get_player_delay(0), 1);
    assert_eq!(manager.get_player_delay(1), 2);
    assert_eq!(manager.get_player_delay(2), 3);
}

#[test]
fn test_player_count() {
    let manager = CachedGameSync::new(vec![1, 1, 1]);
    assert_eq!(manager.player_count(), 3);
}

#[test]
fn test_game_data_size() {
    let mut manager = CachedGameSync::new(vec![1, 1]);
    manager
        .process_client_input(0, ClientInput::GameData(vec![0x01, 0x02]))
        .unwrap();
    assert_eq!(manager.sync.game_data_size, 2);
}

#[test]
fn test_game_data_size_with_different_delays() {
    let mut manager = CachedGameSync::new(vec![1, 2]);
    manager
        .process_client_input(0, ClientInput::GameData(vec![0x01, 0x02]))
        .unwrap();
    let result = manager
        .process_client_input(1, ClientInput::GameData(vec![0x03, 0x04, 0x05, 0x06]))
        .unwrap();
    assert_eq!(
        result.0,
        vec![CachedPlayerOutput {
            player_id: 0,
            response: ServerResponse::GameData(vec![0x01, 0x02, 0x03, 0x04])
        }]
    );
    let result = manager
        .process_client_input(0, ClientInput::GameData(vec![0x07, 0x08]))
        .unwrap();
    assert_eq!(
        result.0,
        vec![
            CachedPlayerOutput {
                player_id: 0,
                response: ServerResponse::GameData(vec![0x07, 0x08, 0x05, 0x06])
            },
            CachedPlayerOutput {
                player_id: 1,
                response: ServerResponse::GameData(vec![
                    0x01, 0x02, 0x03, 0x04, 0x07, 0x08, 0x05, 0x06
                ])
            },
        ]
    );
}

#[test]
fn test_game_data_size_drop() {
    let mut manager = CachedGameSync::new(vec![1, 1]);
    manager
        .process_client_input(0, ClientInput::GameData(vec![0x01, 0x02]))
        .unwrap();
    manager.mark_player_dropped(0).unwrap();
    let result = manager
        .process_client_input(1, ClientInput::GameData(vec![0x03, 0x04]))
        .unwrap();
    assert_eq!(
        result.0,
        vec![
            CachedPlayerOutput {
                player_id: 0,
                response: ServerResponse::GameData(vec![0x01, 0x02, 0x03, 0x04])
            },
            CachedPlayerOutput {
                player_id: 1,
                response: ServerResponse::GameData(vec![0x01, 0x02, 0x03, 0x04])
            },
        ]
    );
    let result = manager
        .process_client_input(1, ClientInput::GameData(vec![0x05, 0x06]))
        .unwrap();
    assert_eq!(
        result.0,
        vec![
            CachedPlayerOutput {
                player_id: 0,
                response: ServerResponse::GameData(vec![0, 0, 5, 6]),
            },
            CachedPlayerOutput {
                player_id: 1,
                response: ServerResponse::GameData(vec![0, 0, 5, 6])
            },
        ]
    )
}

#[test]
fn test_input_cache_logical_positions_after_eviction() {
    let mut cache = InputCache::new();

    for i in 0u8..=255 {
        cache.push(vec![i, 0]);
    }
    assert_eq!(cache.len(), 256);
    assert_eq!(cache.find(&[0, 0]), Some(0));
    assert_eq!(cache.find(&[255, 0]), Some(255));
    assert_eq!(cache.get(0), Some([0u8, 0].as_ref()));
    assert_eq!(cache.get(255), Some([255u8, 0].as_ref()));

    cache.push(vec![100, 1]);
    assert_eq!(cache.len(), 256);
    assert_eq!(
        cache.find(&[0, 0]),
        None,
        "[0,0] was evicted, must not be found"
    );
    assert_eq!(
        cache.find(&[100, 1]),
        Some(255),
        "newest entry must be at logical pos 255"
    );
    assert_eq!(
        cache.find(&[1, 0]),
        Some(0),
        "oldest surviving entry must be at logical pos 0"
    );
    assert_eq!(cache.get(255), Some([100u8, 1].as_ref()));
    assert_eq!(cache.get(0), Some([1u8, 0].as_ref()));
}

#[test]
fn test_output_cache_position_after_eviction() {
    let mut cache = InputCache::new();
    for i in 0u16..257 {
        cache.push(vec![(i >> 8) as u8, (i & 0xFF) as u8]);
    }
    assert_eq!(cache.find(&[0, 0]), None, "[0,0] was evicted");
    assert_eq!(cache.find(&[0, 1]), Some(0), "oldest surviving = pos 0");
    assert_eq!(cache.find(&[0, 255]), Some(254), "abs 255 = pos 254");
    assert_eq!(cache.find(&[1, 0]), Some(255), "newest entry = pos 255");
    assert_eq!(cache.get(0), Some([0u8, 1].as_ref()));
    assert_eq!(cache.get(255), Some([1u8, 0].as_ref()));
}

fn gd(bytes: Vec<u8>) -> ClientInput {
    ClientInput::GameData(bytes)
}

fn decode_client_output(cache: &mut Vec<Vec<u8>>, response: &ServerResponse) -> Vec<u8> {
    match response {
        ServerResponse::GameData(data) => {
            if cache.len() >= 256 {
                cache.remove(0);
            }
            cache.push(data.clone());
            data.clone()
        }
        ServerResponse::GameCache(pos) => cache[*pos as usize].clone(),
    }
}

#[test]
fn test_delay_passthrough_d0() {
    let inner = CachedGameSync::new(vec![1]).with_output_cache_disabled(true);
    let mut d = DelayedGameSync::new(inner, 0);
    let (out, _, _) = d.process_client_input(0, gd(vec![1, 2])).unwrap();
    assert_eq!(out.len(), 1);
    assert_eq!(out[0].response, ServerResponse::GameData(vec![1, 2]));
}

#[test]
fn test_warmup_then_delay_single_player() {
    let inner = CachedGameSync::new(vec![1]).with_output_cache_disabled(true);
    let mut d = DelayedGameSync::new(inner, 2);

    let (o1, _, _) = d.process_client_input(0, gd(vec![1, 2])).unwrap();
    assert_eq!(
        o1[0].response,
        ServerResponse::GameData(vec![0, 0]),
        "warmup #1 = zero"
    );
    let (o2, _, _) = d.process_client_input(0, gd(vec![3, 4])).unwrap();
    assert_eq!(
        o2[0].response,
        ServerResponse::GameData(vec![0, 0]),
        "warmup #2 = zero"
    );

    let (o3, _, _) = d.process_client_input(0, gd(vec![5, 6])).unwrap();
    assert_eq!(
        o3[0].response,
        ServerResponse::GameData(vec![1, 2]),
        "delayed by 2"
    );
    let (o4, _, _) = d.process_client_input(0, gd(vec![7, 8])).unwrap();
    assert_eq!(
        o4[0].response,
        ServerResponse::GameData(vec![3, 4]),
        "delayed by 2"
    );
    let (o5, _, _) = d.process_client_input(0, gd(vec![9, 10])).unwrap();
    assert_eq!(
        o5[0].response,
        ServerResponse::GameData(vec![9, 10]),
        "caught up after startup inputs drain"
    );
}

#[test]
fn test_warmup_outputs_stay_in_output_cache() {
    let mut d = DelayedGameSync::new(CachedGameSync::new(vec![1]), 6);
    let inputs = vec![
        vec![0x00, 0x00],
        vec![0x00, 0x00],
        vec![0x01, 0x00],
        vec![0x01, 0x00],
        vec![0x01, 0x00],
        vec![0x02, 0x00],
        vec![0x02, 0x00],
        vec![0x04, 0x00],
        vec![0x04, 0x00],
        vec![0x04, 0x00],
        vec![0x08, 0x00],
        vec![0x08, 0x00],
        vec![0x00, 0x00],
        vec![0x00, 0x00],
        vec![0x10, 0x00],
        vec![0x10, 0x00],
    ];
    let expected = vec![
        vec![0x00, 0x00],
        vec![0x00, 0x00],
        vec![0x00, 0x00],
        vec![0x00, 0x00],
        vec![0x00, 0x00],
        vec![0x00, 0x00],
        vec![0x00, 0x00],
        vec![0x00, 0x00],
        vec![0x01, 0x00],
        vec![0x01, 0x00],
        vec![0x01, 0x00],
        vec![0x02, 0x00],
        vec![0x00, 0x00],
        vec![0x00, 0x00],
        vec![0x10, 0x00],
        vec![0x10, 0x00],
    ];

    let mut client_cache = Vec::new();
    let mut decoded = Vec::new();
    for input in inputs {
        let (outputs, _, _) = d.process_client_input(0, gd(input)).unwrap();
        assert_eq!(outputs.len(), 1);
        decoded.push(decode_client_output(
            &mut client_cache,
            &outputs[0].response,
        ));
    }

    assert_eq!(decoded, expected);
}

#[test]
fn test_warmup_two_players_then_combine() {
    let inner = CachedGameSync::new(vec![1, 1]).with_output_cache_disabled(true);
    let mut d = DelayedGameSync::new(inner, 1);

    let (a, _, _) = d.process_client_input(0, gd(vec![1, 2])).unwrap();
    assert_eq!(a[0].response, ServerResponse::GameData(vec![0, 0, 0, 0]));
    let (b, _, _) = d.process_client_input(1, gd(vec![3, 4])).unwrap();
    assert_eq!(b[0].response, ServerResponse::GameData(vec![0, 0, 0, 0]));

    let (c, _, _) = d.process_client_input(0, gd(vec![5, 6])).unwrap();
    assert!(c.is_empty(), "combine waits for all players");

    let (e, _, _) = d.process_client_input(1, gd(vec![7, 8])).unwrap();
    assert_eq!(e.len(), 2);
    assert_eq!(e[0].response, ServerResponse::GameData(vec![1, 2, 3, 4]));
    assert_eq!(e[1].response, ServerResponse::GameData(vec![1, 2, 3, 4]));

    let (f, _, _) = d.process_client_input(0, gd(vec![9, 10])).unwrap();
    assert!(f.is_empty(), "combine waits for all players");
    let (g, _, _) = d.process_client_input(1, gd(vec![11, 12])).unwrap();
    assert_eq!(g.len(), 2);
    assert_eq!(g[0].response, ServerResponse::GameData(vec![9, 10, 11, 12]));
    assert_eq!(g[1].response, ServerResponse::GameData(vec![9, 10, 11, 12]));
}

#[test]
fn test_per_player_warmup_delays() {
    let inner = CachedGameSync::new(vec![1, 1]).with_output_cache_disabled(true);
    let mut d = DelayedGameSync::with_player_delays(inner, vec![2, 1]);

    let (p0_a, _, _) = d.process_client_input(0, gd(vec![1, 0])).unwrap();
    assert_eq!(p0_a[0].response, ServerResponse::GameData(vec![0, 0, 0, 0]));
    let (p1_a, _, _) = d.process_client_input(1, gd(vec![10, 0])).unwrap();
    assert_eq!(p1_a[0].response, ServerResponse::GameData(vec![0, 0, 0, 0]));

    let (p1_b, _, _) = d.process_client_input(1, gd(vec![11, 0])).unwrap();
    assert!(p1_b.is_empty(), "p1 released, but p0 has not yet released");
    let (p0_b, _, _) = d.process_client_input(0, gd(vec![2, 0])).unwrap();
    assert_eq!(p0_b[0].response, ServerResponse::GameData(vec![0, 0, 0, 0]));

    let (p0_c, _, _) = d.process_client_input(0, gd(vec![3, 0])).unwrap();
    assert_eq!(p0_c.len(), 2);
    assert_eq!(
        p0_c[0].response,
        ServerResponse::GameData(vec![1, 0, 10, 0])
    );
    assert_eq!(
        p0_c[1].response,
        ServerResponse::GameData(vec![1, 0, 10, 0])
    );

    let (p0_d, _, _) = d.process_client_input(0, gd(vec![4, 0])).unwrap();
    assert!(p0_d.is_empty(), "p0 released, but p1 has not sent next");
    let (p1_c, _, _) = d.process_client_input(1, gd(vec![12, 0])).unwrap();
    assert_eq!(p1_c.len(), 2);
    assert_eq!(
        p1_c[0].response,
        ServerResponse::GameData(vec![2, 0, 12, 0])
    );
    assert_eq!(
        p1_c[1].response,
        ServerResponse::GameData(vec![2, 0, 12, 0])
    );
}
