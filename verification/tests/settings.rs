//! Configuration, log settings, texts, and announcements to server lists.

use direlera_rs::config::{
    default_master_servers, Config, MasterEndpoint, MasterListConfig, MasterPreset, MasterProtocol, MasterServerConfig,
};
use direlera_rs::config_text::substitute;
use direlera_rs::logger::{LogFormat, LogLevel, LokiConfig};
use direlera_rs::master_list::{
    collect, public_address, report, requests_for, usable_address, WaitingGame,
};
use direlera_rs::state::AppState;
use direlera_rs::text::{bytes_for_log, decimal_string, trim};
use std::str::FromStr;

#[test]
fn defaults() {
    let config = Config::default();
    assert_eq!(config.main_port, 8080);
    assert_eq!(config.control_port, 27888);
    assert_eq!(config.metrics_port, 9091);
    assert!(!config.metrics_enabled);
    assert!(!config.disable_output_cache);
    assert_eq!(config.welcome_message, "Welcome to the Kaillera server!");
    assert_eq!(config.tracing.format, "compact");
    assert_eq!(config.tracing.level, "info");
    assert!(!config.master_list.enabled);
    assert_eq!(config.master_list.server_location, "US");
    assert_eq!(config.master_list.server_name, "");
    assert_eq!(config.master_list.max_users, 100);
    assert_eq!(config.master_list.max_games, 50);
    let presets: Vec<MasterPreset> = default_master_servers()
        .into_iter()
        .chain(config.master_list.servers)
        .map(|server| match server.endpoint {
            MasterEndpoint::Preset { preset } => preset,
            MasterEndpoint::Custom { .. } => panic!("not an official list"),
        })
        .collect();
    assert_eq!(presets.len(), 4);
    assert!(matches!(presets[0], MasterPreset::Kaillera));
    assert!(matches!(presets[1], MasterPreset::Emulinker));
    assert!(matches!(presets[2], MasterPreset::Kaillera));
    assert!(matches!(presets[3], MasterPreset::Emulinker));
}

#[test]
fn presets() {
    assert_eq!(
        MasterPreset::Kaillera.url(),
        "http://www.kaillera.com/touch_server.php"
    );
    assert_eq!(
        MasterPreset::Emulinker.url(),
        "http://kaillerareborn.2manygames.fr/touch_list.php"
    );
    assert_eq!(MasterPreset::Kaillera.protocol(), MasterProtocol::Kaillera);
    assert_eq!(MasterPreset::Emulinker.protocol(), MasterProtocol::Emulinker);
}

#[test]
fn variables_are_substituted() {
    let variables = vec![
        ("DIRELERA_MAIN_PORT".to_string(), "9000".to_string()),
        ("DIRELERA_SERVER_ID".to_string(), "seoul-1".to_string()),
        ("NESTED".to_string(), "${DIRELERA_MAIN_PORT}".to_string()),
    ];
    assert_eq!(
        substitute(
            "main_port = ${DIRELERA_MAIN_PORT}\nserver_id = \"${DIRELERA_SERVER_ID}\"\n",
            &variables
        ),
        "main_port = 9000\nserver_id = \"seoul-1\"\n"
    );
    assert_eq!(substitute("plain", &variables), "plain");
    assert_eq!(substitute("${UNKNOWN} $ {x} ${", &variables), "${UNKNOWN} $ {x} ${");
    assert_eq!(substitute("${NESTED}", &variables), "${DIRELERA_MAIN_PORT}");
    assert_eq!(substitute("\u{d55c}${NESTED", &[]), "\u{d55c}${NESTED");
}

#[test]
fn log_names_in_any_case() {
    assert_eq!(LogLevel::parse("TRACE"), LogLevel::Trace);
    assert_eq!(LogLevel::parse("Warn"), LogLevel::Warn);
    assert_eq!(LogLevel::parse("loud"), LogLevel::Info);
    assert_eq!(LogLevel::from_str("ERROR"), Ok(LogLevel::Error));
    assert_eq!(LogFormat::parse("JSON"), LogFormat::Json);
    assert_eq!(LogFormat::parse("Pretty"), LogFormat::Pretty);
    assert_eq!(LogFormat::from_str("?"), Ok(LogFormat::Compact));
    for level in [
        LogLevel::Trace,
        LogLevel::Debug,
        LogLevel::Info,
        LogLevel::Warn,
        LogLevel::Error,
    ] {
        assert_eq!(LogLevel::from_lowercase(&level.as_str().to_string()), level);
    }
    assert_eq!(
        LogFormat::from_lowercase(&"PRETTY".to_string()),
        LogFormat::Compact
    );
}

#[test]
fn credentials_are_encoded() {
    let mut config = LokiConfig {
        url: "https://loki.example.com".to_string(),
        server_id: "a".to_string(),
        username: Some("user".to_string()),
        password: "pass".to_string(),
    };
    assert_eq!(
        config.authorization(),
        Some("Basic dXNlcjpwYXNz".to_string())
    );
    config.username = Some("u".to_string());
    config.password = "".to_string();
    assert_eq!(config.authorization(), Some("Basic dTo=".to_string()));
    config.password = "\u{ff}\u{3ff}".to_string();
    assert_eq!(config.authorization(), Some("Basic dTrDv8+/".to_string()));
    config.username = None;
    assert_eq!(config.authorization(), None);
}

#[test]
fn numbers_and_bytes_as_text() {
    assert_eq!(decimal_string(0), "0");
    assert_eq!(decimal_string(1090), "1090");
    assert_eq!(decimal_string(u64::MAX), "18446744073709551615");
    assert_eq!(bytes_for_log(b"ab c~"), "ab c~");
    assert_eq!(bytes_for_log(&[0xb0, b'x', 0x1f, b'\\']), "\\xb0x\\x1f\\x5c");
}

fn announcing(servers: Vec<MasterServerConfig>) -> Config {
    Config {
        master_list: MasterListConfig {
            enabled: true,
            server_name: "My Server".to_string(),
            server_website: "http://x".to_string(),
            servers,
            ..MasterListConfig::default()
        },
        ..Config::default()
    }
}

fn pairs(list: &[(String, String)]) -> Vec<(&str, &str)> {
    list.iter().map(|(k, v)| (k.as_str(), v.as_str())).collect()
}

#[test]
fn requests_follow_the_protocol_of_each_list() {
    let config = announcing(vec![
        MasterServerConfig {
            endpoint: MasterEndpoint::Preset {
                preset: MasterPreset::Kaillera,
            },
        },
        MasterServerConfig {
            endpoint: MasterEndpoint::Custom {
                url: "http://list".to_string(),
                protocol: MasterProtocol::Emulinker,
            },
        },
    ]);
    let waiting = vec![
        WaitingGame {
            id: 3,
            name: "Game".to_string(),
            owner: "Ann".to_string(),
            emulator: "Emu".to_string(),
            players: 2,
            max_players: 4,
        },
        WaitingGame {
            id: 10,
            name: "B".to_string(),
            owner: "C".to_string(),
            emulator: "D".to_string(),
            players: 1,
            max_players: 4,
        },
    ];
    let requests = requests_for(&config, "1.2.3.4", "direlera/1", 5, 6, &waiting);
    assert_eq!(requests.len(), 2);
    assert_eq!(requests[0].url, "http://www.kaillera.com/touch_server.php");
    assert_eq!(
        pairs(&requests[0].query),
        vec![
            ("servername", "My Server"),
            ("port", "27888"),
            ("nbusers", "5"),
            ("maxconn", "100"),
            ("version", "direlera/1"),
            ("nbgames", "6"),
            ("location", "US"),
            ("ip", "1.2.3.4"),
            ("url", "http://x"),
        ]
    );
    assert_eq!(
        pairs(&requests[0].headers),
        vec![
            ("Kaillera-games", ""),
            ("Kaillera-wgames", "3|Game|Ann|Emu|2|10|B|C|D|1|"),
        ]
    );
    assert_eq!(requests[1].url, "http://list");
    assert_eq!(
        pairs(&requests[1].query),
        vec![
            ("serverName", "My Server"),
            ("ipAddress", "1.2.3.4"),
            ("location", "US"),
            ("website", "http://x"),
            ("port", "27888"),
            ("numUsers", "5"),
            ("maxUsers", "100"),
            ("numGames", "6"),
            ("maxGames", "50"),
            ("version", "direlera/1"),
        ]
    );
    assert_eq!(
        pairs(&requests[1].headers),
        vec![("Waiting-games", "Game|Ann|Emu|2/4|B|C|D|1/4|")]
    );
}

#[test]
fn empty_server_is_announced_as_such() {
    let config = announcing(vec![MasterServerConfig {
        endpoint: MasterEndpoint::Preset {
            preset: MasterPreset::Emulinker,
        },
    }]);
    let state = AppState::new(config.clone());
    let (users, games, waiting) = collect(&state);
    assert_eq!((users, games, waiting.len()), (0, 0, 0));
    let requests = report(&state, &config, "host", "v");
    assert_eq!(requests.len(), 1);
    assert_eq!(pairs(&requests[0].headers), vec![("Waiting-games", "")]);
}

#[test]
fn first_usable_answer_is_the_public_address() {
    assert_eq!(public_address(true, "203.0.113.7"), Some("203.0.113.7".to_string()));
    assert_eq!(public_address(true, ""), None);
    assert_eq!(public_address(false, "error"), None);
    assert_eq!(usable_address(true, "203.0.113.7".to_string()), Some("203.0.113.7".to_string()));
    assert_eq!(usable_address(true, String::new()), None);
    assert_eq!(usable_address(false, "203.0.113.7".to_string()), None);
}

#[test]
fn white_space_around_the_address_is_dropped() {
    assert_eq!(public_address(true, "203.0.113.7\n"), Some("203.0.113.7".to_string()));
    assert_eq!(public_address(true, " \t203.0.113.7\r\n"), Some("203.0.113.7".to_string()));
    assert_eq!(public_address(true, " \r\n "), None);
    assert_eq!(trim("\u{a0} a b\u{3000}"), "a b");
    assert_eq!(trim(""), "");
}
