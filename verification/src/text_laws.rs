//! What texts say: numbers, names for logs, settings with references, and what is
//! reported to master lists.

use vstd::prelude::*;
#[allow(unused_imports)]
use vstd::utf8::encode_utf8;
#[allow(unused_imports)]
use crate::config::{
    official_servers, Config, MasterEndpoint, MasterPreset, MasterProtocol,
};
#[allow(unused_imports)]
use crate::config_text::{brace_at, expanded, reference, value_of};
#[allow(unused_imports)]
use crate::control::{control_answer, probe};
#[allow(unused_imports)]
use crate::logger::{LogFormat, LogLevel, LokiConfig};
#[allow(unused_imports)]
use crate::master_list::{announcement, touch, waiting_among, waiting_header, WaitingModel};
#[allow(unused_imports)]
use crate::packet_laws::lemma_digits;
#[allow(unused_imports)]
use crate::simplest_game_sync::types::GameSyncError;
#[allow(unused_imports)]
use crate::state::ServerModel;
#[allow(unused_imports)]
use crate::text::{
    byte_for_log, decimal, digit_char, log_text, lossy_text, trimmed, trimmed_end, trimmed_start,
    white_space,
};

verus! {

/// The number that decimal digits stand for.
pub open spec fn value_of_digits(text: Seq<char>) -> int
    decreases text.len(),
{
    if text.len() == 0 {
        0
    } else {
        10 * value_of_digits(text.drop_last()) + (text.last() as int - 48)
    }
}

/// A number in decimal is read back as it was, from digits alone, of which the first
/// is not 0 unless it is the only one.
pub proof fn law_decimal_is_read_back(n: nat)
    ensures
        value_of_digits(decimal(n)) == n,
        decimal(n).len() > 0,
        forall|i: int| 0 <= i < decimal(n).len() ==> '0' <= #[trigger] decimal(n)[i] <= '9',
        decimal(n).len() > 1 <==> n >= 10,
        decimal(n).len() > 1 ==> decimal(n)[0] != '0',
    decreases n,
{
    lemma_digits(n);
    let code = (48 + n % 10) as u8;
    assert(digit_char(n % 10) == code as char);
    assert((code as char) as int == code);
    if n < 10 {
        assert(decimal(n).drop_last() =~= Seq::empty());
        assert(value_of_digits(decimal(n).drop_last()) == 0);
    } else {
        law_decimal_is_read_back(n / 10);
        assert(decimal(n).drop_last() =~= decimal(n / 10));
        assert(decimal(n)[0] == decimal(n / 10)[0]);
        if n / 10 < 10 {
            let first = (48 + n / 10) as u8;
            assert(digit_char(n / 10) == first as char);
            assert((first as char) as int == first);
        }
    }
}

/// Bytes are shown one after the other: printable ASCII but for the backslash as it
/// is, and anything else as a backslash, an x and two hexadecimal digits.
pub proof fn law_bytes_are_shown_one_by_one(bytes: Seq<u8>, b: u8)
    ensures
        log_text(Seq::empty()) == Seq::<char>::empty(),
        log_text(bytes.push(b)) == log_text(bytes) + byte_for_log(b),
        32 <= b < 127 && b != 92 ==> byte_for_log(b) == seq![b as char],
        !(32 <= b < 127 && b != 92) ==> {
            &&& byte_for_log(b).len() == 4
            &&& byte_for_log(b)[0] == '\\'
            &&& byte_for_log(b)[1] == 'x'
            &&& byte_for_log(b)[2] as int == if b / 16 < 10 {
                48 + b / 16
            } else {
                87 + b / 16
            }
            &&& byte_for_log(b)[3] as int == if b % 16 < 10 {
                48 + b % 16
            } else {
                87 + b % 16
            }
        },
{
    assert(bytes.push(b).drop_last() =~= bytes);
    let high = if b / 16 < 10 {
        (48 + b / 16) as u8
    } else {
        (87 + b / 16) as u8
    };
    let low = if b % 16 < 10 {
        (48 + b % 16) as u8
    } else {
        (87 + b % 16) as u8
    };
    assert((high as char) as int == high);
    assert((low as char) as int == low);
    assert(crate::text::hex_char((b / 16) as nat) == high as char);
    assert(crate::text::hex_char((b % 16) as nat) == low as char);
}

proof fn lemma_trim_start(space: Seq<char>, text: Seq<char>)
    requires
        forall|i: int| 0 <= i < space.len() ==> white_space(#[trigger] space[i]),
        text.len() > 0 ==> !white_space(text[0]),
    ensures
        trimmed_start(space + text) == text,
    decreases space.len(),
{
    if space.len() > 0 {
        let rest = space.skip(1);
        assert((space + text)[0] == space[0]);
        assert((space + text).skip(1) =~= rest + text);
        assert forall|i: int| 0 <= i < rest.len() implies white_space(#[trigger] rest[i]) by {
            assert(rest[i] == space[i + 1]);
        }
        lemma_trim_start(rest, text);
    } else {
        assert(space + text =~= text);
    }
}

proof fn lemma_trim_end(text: Seq<char>, space: Seq<char>)
    requires
        forall|i: int| 0 <= i < space.len() ==> white_space(#[trigger] space[i]),
        text.len() > 0 ==> !white_space(text.last()),
    ensures
        trimmed_end(text + space) == text,
    decreases space.len(),
{
    if space.len() > 0 {
        let rest = space.drop_last();
        assert((text + space).last() == space.last());
        assert((text + space).drop_last() =~= text + rest);
        assert forall|i: int| 0 <= i < rest.len() implies white_space(#[trigger] rest[i]) by {
            assert(rest[i] == space[i]);
        }
        assert(white_space(space[space.len() - 1]));
        lemma_trim_end(text, rest);
    } else {
        assert(text + space =~= text);
    }
}

/// Trimming takes the white space off both ends of a text and nothing else.
pub proof fn law_trimming_keeps_the_text(before: Seq<char>, text: Seq<char>, after: Seq<char>)
    requires
        forall|i: int| 0 <= i < before.len() ==> white_space(#[trigger] before[i]),
        forall|i: int| 0 <= i < after.len() ==> white_space(#[trigger] after[i]),
        text.len() > 0,
        !white_space(text[0]),
        !white_space(text.last()),
    ensures
        trimmed(before + text + after) == text,
{
    assert(before + text + after =~= before + (text + after));
    lemma_trim_start(before, text + after);
    lemma_trim_end(text, after);
}

/// White space alone is trimmed to nothing.
pub proof fn law_trimming_white_space_leaves_nothing(space: Seq<char>)
    requires
        forall|i: int| 0 <= i < space.len() ==> white_space(#[trigger] space[i]),
    ensures
        trimmed(space) == Seq::<char>::empty(),
{
    assert(space + Seq::empty() =~= space);
    lemma_trim_start(space, Seq::empty());
}

/// A variable has the value it is given first.
pub proof fn law_first_value_counts(
    variables: Seq<(Seq<char>, Seq<char>)>,
    name: Seq<char>,
    i: int,
)
    requires
        0 <= i < variables.len(),
        variables[i].0 == name,
        forall|j: int| 0 <= j < i ==> (#[trigger] variables[j]).0 != name,
    ensures
        value_of(variables, name) == Some(variables[i].1),
    decreases i,
{
    if i > 0 {
        let rest = variables.skip(1);
        assert(variables[0].0 != name);
        assert forall|j: int| 0 <= j < i - 1 implies (#[trigger] rest[j]).0 != name by {
            assert(rest[j] == variables[j + 1]);
        }
        law_first_value_counts(rest, name, i - 1);
    }
}

/// A variable that is not given has no value.
pub proof fn law_missing_variable_has_no_value(
    variables: Seq<(Seq<char>, Seq<char>)>,
    name: Seq<char>,
)
    requires
        forall|j: int| 0 <= j < variables.len() ==> (#[trigger] variables[j]).0 != name,
    ensures
        value_of(variables, name) is None,
    decreases variables.len(),
{
    if variables.len() > 0 {
        let rest = variables.skip(1);
        assert(variables[0].0 != name);
        assert forall|j: int| 0 <= j < rest.len() implies (#[trigger] rest[j]).0 != name by {
            assert(rest[j] == variables[j + 1]);
        }
        law_missing_variable_has_no_value(rest, name);
    }
}

/// Text without a dollar sign stays as it is, before whatever follows.
pub proof fn law_text_before_a_reference_is_kept(
    text: Seq<char>,
    rest: Seq<char>,
    variables: Seq<(Seq<char>, Seq<char>)>,
)
    requires
        forall|i: int| 0 <= i < text.len() ==> text[i] != '$',
    ensures
        expanded(text + rest, variables) == text + expanded(rest, variables),
    decreases text.len(),
{
    let all = text + rest;
    if text.len() > 0 {
        let tail = text.skip(1);
        assert(all[0] == text[0]);
        assert(all.skip(1) =~= tail + rest);
        law_text_before_a_reference_is_kept(tail, rest, variables);
        assert(reference(all) is None);
        assert(seq![text[0]] + (tail + expanded(rest, variables)) =~= text + expanded(
            rest,
            variables,
        ));
    } else {
        assert(all =~= rest);
        assert(text + expanded(rest, variables) =~= expanded(rest, variables));
    }
}

/// A reference to a variable that is not given stays as it is.
pub proof fn law_unknown_reference_is_kept(
    name: Seq<char>,
    rest: Seq<char>,
    variables: Seq<(Seq<char>, Seq<char>)>,
)
    requires
        forall|i: int| 0 <= i < name.len() ==> name[i] != '}' && name[i] != '$',
        forall|j: int| 0 <= j < variables.len() ==> (#[trigger] variables[j]).0 != name,
    ensures
        expanded(seq!['$', '{'] + name + seq!['}'] + rest, variables) == seq!['$', '{'] + name
            + seq!['}'] + expanded(rest, variables),
{
    let all = seq!['$', '{'] + name + seq!['}'] + rest;
    let body = seq!['{'] + name + seq!['}'];
    law_missing_variable_has_no_value(variables, name);
    assert(all.skip(2) =~= name + (seq!['}'] + rest));
    lemma_brace(name, seq!['}'] + rest);
    assert(all.skip(2).take(name.len() as int) =~= name);
    assert(reference(all) == Some(name));
    assert(all.skip(1) =~= body + rest);
    assert forall|i: int| 0 <= i < body.len() implies body[i] != '$' by {
        if 0 < i <= name.len() {
            assert(body[i] == name[i - 1]);
        }
    }
    law_text_before_a_reference_is_kept(body, rest, variables);
    assert(seq!['$'] + (body + expanded(rest, variables)) =~= seq!['$', '{'] + name + seq!['}']
        + expanded(rest, variables));
}

proof fn lemma_brace(name: Seq<char>, rest: Seq<char>)
    requires
        forall|i: int| 0 <= i < name.len() ==> name[i] != '}',
        rest.len() == 0 || rest[0] == '}',
    ensures
        brace_at(name + rest) == name.len(),
    decreases name.len(),
{
    if name.len() > 0 {
        assert((name + rest)[0] == name[0]);
        assert((name + rest).skip(1) =~= name.skip(1) + rest);
        lemma_brace(name.skip(1), rest);
    } else {
        assert(name + rest =~= rest);
    }
}

/// Without a closing brace there is no reference: the text stays as it is.
pub proof fn law_unclosed_reference_is_kept(
    text: Seq<char>,
    variables: Seq<(Seq<char>, Seq<char>)>,
)
    requires
        forall|i: int| 0 <= i < text.len() ==> text[i] != '}',
    ensures
        expanded(text, variables) == text,
    decreases text.len(),
{
    if text.len() > 0 {
        let tail = text.skip(1);
        law_unclosed_reference_is_kept(tail, variables);
        if text.len() >= 2 {
            let after = text.skip(2);
            assert(after + Seq::empty() =~= after);
            lemma_brace(after, Seq::empty());
        }
        assert(reference(text) is None);
        assert(seq![text[0]] + tail =~= text);
    }
}

/// Any other name of a log format means the compact one, and of a level the one for
/// information.
pub proof fn law_unknown_log_names_have_defaults(name: Seq<char>)
    ensures
        LogFormat::named(name) == LogFormat::Pretty <==> name == "pretty"@,
        LogFormat::named(name) == LogFormat::Json <==> name == "json"@ && name != "pretty"@,
        name != "pretty"@ && name != "json"@ ==> LogFormat::named(name) == LogFormat::Compact,
        name != "trace"@ && name != "debug"@ && name != "warn"@ && name != "error"@
            ==> LogLevel::named(name) == LogLevel::Info,
{
}

/// A client that looks for the server is told the port it plays on; a ping is answered;
/// and nothing else is.
pub proof fn law_discovery_is_answered(data: Seq<u8>, main_port: u16)
    ensures
        data == probe("HELLO0.83"@) ==> control_answer(data, main_port) == Some(
            probe("HELLOD00D"@ + decimal(main_port as nat)),
        ),
        data == probe("PING"@) && data != probe("HELLO0.83"@) ==> control_answer(data, main_port)
            == Some(probe("PONG"@)),
        data != probe("HELLO0.83"@) && data != probe("PING"@) ==> control_answer(
            data,
            main_port,
        ) is None,
{
}

/// The rooms that are reported are those that wait, each with its number, names,
/// players and seats.
pub proof fn law_waiting_rooms_are_reported(m: ServerModel, ids: Seq<u32>)
    ensures
        ({
            let waiting = ids.filter(|id: u32| m.games[id].game_status == 0);
            waiting_among(m, ids) == Seq::new(
                waiting.len(),
                |i: int|
                    WaitingModel {
                        id: waiting[i],
                        name: lossy_text(m.games[waiting[i]].game_name),
                        owner: lossy_text(m.games[waiting[i]].owner),
                        emulator: lossy_text(m.games[waiting[i]].emulator_name),
                        players: m.games[waiting[i]].players.len(),
                        max_players: m.games[waiting[i]].max_players,
                    },
            )
        }),
    decreases ids.len(),
{
    reveal(Seq::filter);
    let pred = |id: u32| m.games[id].game_status == 0;
    let waiting = ids.filter(pred);
    if ids.len() > 0 {
        law_waiting_rooms_are_reported(m, ids.drop_last());
        let before = ids.drop_last().filter(pred);
        assert(waiting == if pred(ids.last()) {
            before.push(ids.last())
        } else {
            before
        });
    }
    assert(waiting_among(m, ids) =~= Seq::new(
        waiting.len(),
        |i: int|
            WaitingModel {
                id: waiting[i],
                name: lossy_text(m.games[waiting[i]].game_name),
                owner: lossy_text(m.games[waiting[i]].owner),
                emulator: lossy_text(m.games[waiting[i]].emulator_name),
                players: m.games[waiting[i]].players.len(),
                max_players: m.games[waiting[i]].max_players,
            },
    ));
}

/// Waiting rooms are listed one after the other, each field with a bar behind it: for
/// one kind of list with its number, for the other with its seats.
pub proof fn law_waiting_rooms_are_listed(games: Seq<WaitingModel>, next: WaitingModel)
    ensures
        waiting_header(Seq::empty(), MasterProtocol::Kaillera) == Seq::<char>::empty(),
        waiting_header(Seq::empty(), MasterProtocol::Emulinker) == Seq::<char>::empty(),
        waiting_header(games.push(next), MasterProtocol::Kaillera) == waiting_header(
            games,
            MasterProtocol::Kaillera,
        ) + (decimal(next.id as nat) + "|"@ + next.name + "|"@ + next.owner + "|"@ + next.emulator
            + "|"@ + decimal(next.players) + "|"@),
        waiting_header(games.push(next), MasterProtocol::Emulinker) == waiting_header(
            games,
            MasterProtocol::Emulinker,
        ) + (next.name + "|"@ + next.owner + "|"@ + next.emulator + "|"@ + decimal(next.players)
            + "/"@ + decimal(next.max_players as nat) + "|"@),
{
    assert(games.push(next).drop_last() =~= games);
}

/// A request to a master list says, under the names that the list goes by, what is
/// configured and what was counted.
pub proof fn law_report_says_what_was_counted(
    endpoint: MasterEndpoint,
    config: Config,
    address: Seq<char>,
    version: Seq<char>,
    users: nat,
    games: nat,
    waiting: Seq<WaitingModel>,
)
    ensures
        ({
            let request = touch(
                endpoint,
                announcement(config, address, version, users, games, waiting),
            );
            let list = config.master_list;
            let kaillera = match endpoint {
                MasterEndpoint::Preset { preset } => preset == MasterPreset::Kaillera,
                MasterEndpoint::Custom { protocol, .. } => protocol == MasterProtocol::Kaillera,
            };
            &&& request.url == match endpoint {
                MasterEndpoint::Preset { preset } => preset.address(),
                MasterEndpoint::Custom { url, .. } => url@,
            }
            &&& kaillera ==> request.query == seq![
                ("servername"@, list.server_name@),
                ("port"@, decimal(config.control_port as nat)),
                ("nbusers"@, decimal(users)),
                ("maxconn"@, decimal(list.max_users as nat)),
                ("version"@, version),
                ("nbgames"@, decimal(games)),
                ("location"@, list.server_location@),
                ("ip"@, address),
                ("url"@, list.server_website@),
            ] && request.headers == seq![
                ("Kaillera-games"@, Seq::<char>::empty()),
                ("Kaillera-wgames"@, waiting_header(waiting, MasterProtocol::Kaillera)),
            ]
            &&& !kaillera ==> request.query == seq![
                ("serverName"@, list.server_name@),
                ("ipAddress"@, address),
                ("location"@, list.server_location@),
                ("website"@, list.server_website@),
                ("port"@, decimal(config.control_port as nat)),
                ("numUsers"@, decimal(users)),
                ("maxUsers"@, decimal(list.max_users as nat)),
                ("numGames"@, decimal(games)),
                ("maxGames"@, decimal(list.max_games as nat)),
                ("version"@, version),
            ] && request.headers == seq![
                ("Waiting-games"@, waiting_header(waiting, MasterProtocol::Emulinker)),
            ]
        }),
{
}

/// A probe or its answer is a text with a NUL behind it.
pub proof fn law_probes_end_with_nul(text: Seq<char>)
    ensures
        probe(text) == encode_utf8(text) + seq![0u8],
{
    assert(probe(text) =~= encode_utf8(text) + seq![0u8]);
}

/// The lists that are known by name have their addresses and speak their own kind.
pub proof fn law_known_lists_have_their_addresses()
    ensures
        MasterPreset::Kaillera.address() == "http://www.kaillera.com/touch_server.php"@,
        MasterPreset::Emulinker.address()
            == "http://kaillerareborn.2manygames.fr/touch_list.php"@,
        MasterPreset::Kaillera.speaks() == MasterProtocol::Kaillera,
        MasterPreset::Emulinker.speaks() == MasterProtocol::Emulinker,
        official_servers().len() == 2,
        official_servers()[0].endpoint == (MasterEndpoint::Preset {
            preset: MasterPreset::Kaillera,
        }),
        official_servers()[1].endpoint == (MasterEndpoint::Preset {
            preset: MasterPreset::Emulinker,
        }),
{
}

/// Credentials are the username and the password with a colon between them.
pub proof fn law_credentials_are_name_and_password(config: LokiConfig)
    ensures
        config.username matches Some(user) ==> config.credentials() == user@ + seq![':']
            + config.password@,
{
    reveal_strlit(":");
    assert(":"@ =~= seq![':']);
}

/// An error names the player and what it asked for.
pub proof fn law_errors_name_the_player(player_id: usize, player_count: usize, position: u8)
    ensures
        (GameSyncError::InvalidPlayerId { player_id, player_count }).message()
            == "Invalid player_id: "@ + decimal(player_id as nat) + " (valid range: 0.."@ + decimal(
            player_count as nat,
        ) + ")"@,
        (GameSyncError::CachePositionNotFound { player_id, position }).message()
            == "Cache position "@ + decimal(position as nat) + " not found for player "@ + decimal(
            player_id as nat,
        ),
{
}

} // verus!
