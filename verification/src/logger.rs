//! Log settings: formats, levels, and where logs are pushed to.

use base64::Engine;
use std::str::FromStr;
use vstd::prelude::*;
#[allow(unused_imports)]
use vstd::utf8::encode_utf8;
use crate::text::lowercase;
#[allow(unused_imports)]
use crate::text::lowercase_text;

verus! {

/// Where logs are pushed to, besides standard output.
pub struct LokiConfig {
    /// Base URL of the Loki server; the push path is appended to it.
    pub url: String,
    /// Unique server identifier, attached as a label.
    pub server_id: String,
    /// Username for basic authentication; without it no credentials are sent.
    pub username: Option<String>,
    pub password: String,
}

/// Log format options.
#[derive(Debug, Clone, Copy, PartialEq, Eq, Structural)]
pub enum LogFormat {
    Compact,
    Pretty,
    Json,
}

/// Log level options.
#[derive(Debug, Clone, Copy, PartialEq, Eq, Structural)]
pub enum LogLevel {
    Trace,
    Debug,
    Info,
    Warn,
    Error,
}

impl LogFormat {
    /// The format of a name in lower case; unknown names are compact.
    pub open spec fn named(name: Seq<char>) -> LogFormat {
        if name == "pretty"@ {
            LogFormat::Pretty
        } else if name == "json"@ {
            LogFormat::Json
        } else {
            LogFormat::Compact
        }
    }

    /// The format of a name in lower case.
    pub fn from_lowercase(name: &String) -> (format: LogFormat)
        ensures
            format == LogFormat::named(name@),
    {
        if *name == "pretty".to_owned() {
            LogFormat::Pretty
        } else if *name == "json".to_owned() {
            LogFormat::Json
        } else {
            LogFormat::Compact
        }
    }

    /// The format of a name in any case.
    pub fn parse(name: &str) -> (format: LogFormat)
        ensures
            format == LogFormat::named(lowercase_text(name@)),
    {
        let lower: String = lowercase(name);
        LogFormat::from_lowercase(&lower)
    }
}

impl FromStr for LogFormat {
    type Err = ();

    /// The format of a name in any case; no name is refused.
    fn from_str(s: &str) -> (result: Result<Self, ()>)
        ensures
            result == Ok::<LogFormat, ()>(LogFormat::named(lowercase_text(s@))),
    {
        Ok(LogFormat::parse(s))
    }
}

impl LogLevel {
    /// The name of a level.
    pub open spec fn name(self) -> Seq<char> {
        match self {
            LogLevel::Trace => "trace"@,
            LogLevel::Debug => "debug"@,
            LogLevel::Info => "info"@,
            LogLevel::Warn => "warn"@,
            LogLevel::Error => "error"@,
        }
    }

    /// The level of a name in lower case; unknown names are info.
    pub open spec fn named(name: Seq<char>) -> LogLevel {
        if name == "trace"@ {
            LogLevel::Trace
        } else if name == "debug"@ {
            LogLevel::Debug
        } else if name == "warn"@ {
            LogLevel::Warn
        } else if name == "error"@ {
            LogLevel::Error
        } else {
            LogLevel::Info
        }
    }

    /// The name of a level.
    pub fn as_str(&self) -> (name: &'static str)
        ensures
            name@ == self.name(),
    {
        match self {
            LogLevel::Trace => "trace",
            LogLevel::Debug => "debug",
            LogLevel::Info => "info",
            LogLevel::Warn => "warn",
            LogLevel::Error => "error",
        }
    }

    /// The level of a name in lower case.
    pub fn from_lowercase(name: &String) -> (level: LogLevel)
        ensures
            level == LogLevel::named(name@),
    {
        if *name == "trace".to_owned() {
            LogLevel::Trace
        } else if *name == "debug".to_owned() {
            LogLevel::Debug
        } else if *name == "warn".to_owned() {
            LogLevel::Warn
        } else if *name == "error".to_owned() {
            LogLevel::Error
        } else {
            LogLevel::Info
        }
    }

    /// The level of a name in any case.
    pub fn parse(name: &str) -> (level: LogLevel)
        ensures
            level == LogLevel::named(lowercase_text(name@)),
    {
        let lower: String = lowercase(name);
        LogLevel::from_lowercase(&lower)
    }
}

impl FromStr for LogLevel {
    type Err = ();

    /// The level of a name in any case; no name is refused.
    fn from_str(s: &str) -> (result: Result<Self, ()>)
        ensures
            result == Ok::<LogLevel, ()>(LogLevel::named(lowercase_text(s@))),
    {
        Ok(LogLevel::parse(s))
    }
}

/// The name of a level gives the level back.
pub proof fn law_level_name_is_read_back(level: LogLevel)
    ensures
        LogLevel::named(level.name()) == level,
{
    reveal_strlit("trace");
    reveal_strlit("debug");
    reveal_strlit("info");
    reveal_strlit("warn");
    reveal_strlit("error");
    let info = "info"@;
    let warn = "warn"@;
    assert(info[0] != warn[0]);
    let trace = "trace"@;
    let debug = "debug"@;
    let error = "error"@;
    assert(trace[0] != debug[0]);
    assert(trace[0] != error[0]);
    assert(debug[0] != error[0]);
}

/// The character of a base64 digit.
pub open spec fn base64_char(digit: int) -> char {
    if digit < 26 {
        (65 + digit) as char
    } else if digit < 52 {
        (71 + digit) as char
    } else if digit < 62 {
        (digit - 4) as char
    } else if digit == 62 {
        '+'
    } else {
        '/'
    }
}

/// Bytes in base64 with the standard alphabet and padding: three bytes make four
/// digits of six bits.
pub open spec fn base64_text(bytes: Seq<u8>) -> Seq<char>
    decreases bytes.len(),
{
    if bytes.len() == 0 {
        Seq::empty()
    } else if bytes.len() == 1 {
        seq![
            base64_char(bytes[0] as int / 4),
            base64_char(bytes[0] as int % 4 * 16),
            '=',
            '=',
        ]
    } else if bytes.len() == 2 {
        seq![
            base64_char(bytes[0] as int / 4),
            base64_char(bytes[0] as int % 4 * 16 + bytes[1] as int / 16),
            base64_char(bytes[1] as int % 16 * 4),
            '=',
        ]
    } else {
        seq![
            base64_char(bytes[0] as int / 4),
            base64_char(bytes[0] as int % 4 * 16 + bytes[1] as int / 16),
            base64_char(bytes[1] as int % 16 * 4 + bytes[2] as int / 64),
            base64_char(bytes[2] as int % 64),
        ] + base64_text(bytes.skip(3))
    }
}

/// The base64 text of so many bytes is no longer than a buffer can be.
pub open spec fn base64_fits(len: nat) -> bool {
    (len + 2) / 3 * 4 <= isize::MAX
}

/// `Engine::encode` of the standard engine: base64 with the standard alphabet and
/// padding. It panics where the text would be longer than a buffer can be.
#[verifier::external_body]
fn encode_base64(text: &str) -> (encoded: String)
    requires
        base64_fits(encode_utf8(text@).len()),
    ensures
        encoded@ == base64_text(encode_utf8(text@)),
{
    base64::engine::general_purpose::STANDARD.encode(text)
}

impl LokiConfig {
    /// The credentials as they are encoded.
    pub open spec fn credentials(self) -> Seq<char> {
        match self.username {
            Some(user) => user@ + ":"@ + self.password@,
            None => Seq::empty(),
        }
    }

    /// The value of the authorization header, where credentials are sent.
    pub fn authorization(&self) -> (header: Option<String>)
        requires
            base64_fits(encode_utf8(self.credentials()).len()),
        ensures
            match header {
                Some(value) => self.username is Some && value@ == "Basic "@ + base64_text(
                    encode_utf8(self.credentials()),
                ),
                None => self.username is None,
            },
    {
        match &self.username {
            Some(user) => {
                let credentials: String = user.clone().concat(":").concat(self.password.as_str());
                let token: String = encode_base64(credentials.as_str());
                Some("Basic ".to_owned().concat(token.as_str()))
            },
            None => None,
        }
    }
}

} // verus!
