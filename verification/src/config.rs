//! Server configuration and its defaults.

use vstd::prelude::*;

verus! {

/// Server configuration.
#[derive(Debug, Clone)]
pub struct Config {
    /// Main UDP port used after the initial handshake.
    pub main_port: u16,
    /// UDP port for discovery, ping and the initial connection.
    pub control_port: u16,
    pub tracing: TracingConfig,
    /// Text shown to clients when they connect, one chat line per line.
    pub welcome_message: String,
    /// Send full game data instead of cache positions, for clients whose cache
    /// behaves otherwise.
    pub disable_output_cache: bool,
    pub metrics_enabled: bool,
    pub metrics_port: u16,
    pub master_list: MasterListConfig,
}

/// Log format and level, by name.
#[derive(Debug, Clone)]
pub struct TracingConfig {
    pub format: String,
    pub level: String,
}

/// What to announce to public server lists.
#[derive(Debug, Clone)]
pub struct MasterListConfig {
    pub enabled: bool,
    pub server_name: String,
    /// Public IP or hostname that clients use to connect.
    pub server_address: String,
    pub server_location: String,
    pub server_website: String,
    pub max_users: u32,
    pub max_games: u32,
    /// Lists to report to.
    pub servers: Vec<MasterServerConfig>,
}

/// One list to report to.
#[derive(Debug, Clone)]
pub struct MasterServerConfig {
    pub endpoint: MasterEndpoint,
}

/// Either a named preset (URL and protocol bundled) or a fully custom entry.
#[derive(Debug, Clone)]
pub enum MasterEndpoint {
    Preset { preset: MasterPreset },
    Custom { url: String, protocol: MasterProtocol },
}

/// Built-in named servers.
#[derive(Debug, Clone, Copy)]
pub enum MasterPreset {
    Kaillera,
    Emulinker,
}

/// Which query parameters a list understands.
#[derive(Debug, Clone, Copy, PartialEq, Eq, Structural)]
pub enum MasterProtocol {
    /// `servername`, `nbusers`, `ip` and so on.
    Kaillera,
    /// `serverName`, `numUsers`, `ipAddress` and so on.
    Emulinker,
}

impl MasterPreset {
    /// Where a preset is reached.
    pub open spec fn address(self) -> Seq<char> {
        match self {
            MasterPreset::Kaillera => "http://www.kaillera.com/touch_server.php"@,
            MasterPreset::Emulinker => "http://kaillerareborn.2manygames.fr/touch_list.php"@,
        }
    }

    /// What a preset understands.
    pub open spec fn speaks(self) -> MasterProtocol {
        match self {
            MasterPreset::Kaillera => MasterProtocol::Kaillera,
            MasterPreset::Emulinker => MasterProtocol::Emulinker,
        }
    }

    /// The URL of a preset.
    pub fn url(&self) -> (url: &'static str)
        ensures
            url@ == self.address(),
    {
        match self {
            MasterPreset::Kaillera => "http://www.kaillera.com/touch_server.php",
            MasterPreset::Emulinker => "http://kaillerareborn.2manygames.fr/touch_list.php",
        }
    }

    /// The protocol of a preset.
    pub fn protocol(&self) -> (protocol: MasterProtocol)
        ensures
            protocol == self.speaks(),
    {
        match self {
            MasterPreset::Kaillera => MasterProtocol::Kaillera,
            MasterPreset::Emulinker => MasterProtocol::Emulinker,
        }
    }
}

/// The two official lists, by their presets.
pub open spec fn official_servers() -> Seq<MasterServerConfig> {
    seq![
        MasterServerConfig {
            endpoint: MasterEndpoint::Preset { preset: MasterPreset::Kaillera },
        },
        MasterServerConfig {
            endpoint: MasterEndpoint::Preset { preset: MasterPreset::Emulinker },
        },
    ]
}

/// The lists that are reported to unless others are configured.
pub fn default_master_servers() -> (servers: Vec<MasterServerConfig>)
    ensures
        servers@ == official_servers(),
{
    let mut servers: Vec<MasterServerConfig> = Vec::new();
    servers.push(
        MasterServerConfig {
            endpoint: MasterEndpoint::Preset { preset: MasterPreset::Kaillera },
        },
    );
    servers.push(
        MasterServerConfig {
            endpoint: MasterEndpoint::Preset { preset: MasterPreset::Emulinker },
        },
    );
    assert(servers@ =~= official_servers());
    servers
}

/// Default user limit that is announced.
pub fn master_default_max_users() -> (n: u32)
    ensures
        n == 100,
{
    100
}

/// Default room limit that is announced.
pub fn master_default_max_games() -> (n: u32)
    ensures
        n == 50,
{
    50
}

/// Default short location code that is announced.
pub fn master_default_location() -> (location: String)
    ensures
        location@ == "US"@,
{
    "US".to_owned()
}

/// Default metrics port.
pub fn default_metrics_port() -> (port: u16)
    ensures
        port == 9091,
{
    9091
}

/// Default main port.
pub fn default_main_port() -> (port: u16)
    ensures
        port == 8080,
{
    8080
}

/// Default control port.
pub fn default_sub_port() -> (port: u16)
    ensures
        port == 27888,
{
    27888
}

/// Default log format.
pub fn default_format() -> (format: String)
    ensures
        format@ == "compact"@,
{
    "compact".to_owned()
}

/// Default log level.
pub fn default_level() -> (level: String)
    ensures
        level@ == "info"@,
{
    "info".to_owned()
}

/// Default welcome message.
pub fn default_welcome_message() -> (message: String)
    ensures
        message@ == "Welcome to the Kaillera server!"@,
{
    "Welcome to the Kaillera server!".to_owned()
}

impl TracingConfig {
    /// Compact logs at level info.
    pub open spec fn is_default(self) -> bool {
        self.format@ == "compact"@ && self.level@ == "info"@
    }
}

impl Default for TracingConfig {
    fn default() -> (config: Self)
        ensures
            config.is_default(),
    {
        Self { format: default_format(), level: default_level() }
    }
}

impl MasterListConfig {
    /// Reporting off, to the official lists once it is on, and nothing announced but
    /// a location and the limits.
    pub open spec fn is_default(self) -> bool {
        &&& !self.enabled
        &&& self.server_name@ == Seq::<char>::empty()
        &&& self.server_address@ == Seq::<char>::empty()
        &&& self.server_location@ == "US"@
        &&& self.server_website@ == Seq::<char>::empty()
        &&& self.max_users == 100
        &&& self.max_games == 50
        &&& self.servers@ == official_servers()
    }
}

impl Default for MasterListConfig {
    fn default() -> (config: Self)
        ensures
            config.is_default(),
    {
        Self {
            enabled: false,
            server_name: String::new(),
            server_address: String::new(),
            server_location: master_default_location(),
            server_website: String::new(),
            max_users: master_default_max_users(),
            max_games: master_default_max_games(),
            servers: default_master_servers(),
        }
    }
}

impl Default for Config {
    fn default() -> (config: Self)
        ensures
            config.main_port == 8080,
            config.control_port == 27888,
            config.tracing.is_default(),
            config.welcome_message@ == "Welcome to the Kaillera server!"@,
            !config.disable_output_cache,
            !config.metrics_enabled,
            config.metrics_port == 9091,
            config.master_list.is_default(),
    {
        Self {
            main_port: default_main_port(),
            control_port: default_sub_port(),
            tracing: TracingConfig::default(),
            welcome_message: default_welcome_message(),
            disable_output_cache: false,
            metrics_enabled: false,
            metrics_port: default_metrics_port(),
            master_list: MasterListConfig::default(),
        }
    }
}

} // verus!
