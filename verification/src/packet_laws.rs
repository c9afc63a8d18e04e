//! What a client reads out of the bodies it is sent: every field as it was put in,
//! and nothing else.

use vstd::prelude::*;
#[allow(unused_imports)]
use vstd::utf8::{is_ascii_chars, is_ascii_chars_encode_utf8};
#[allow(unused_imports)]
use crate::packet_util::{
    chat_body, close_game_body, count_bytes, drop_game_body, empty_string, game_cache_body,
    game_data_body,
    game_entries_bytes, game_entry_bytes, game_status_body, join_game_body, new_game_body, occupancy,
    player_entries_bytes, player_entry_bytes, player_information_body, quit_game_body,
    server_status_body, server_to_client_ack_body, start_game_body, user_entries_bytes,
    user_entry_bytes, user_joined_body, user_message_body, GameEntryModel, PlayerEntryModel,
    UserEntryModel,
};
#[allow(unused_imports)]
use crate::text::{decimal, digit_char};
#[allow(unused_imports)]
use crate::wire::{
    after_string, first_string, law_le16_is_read_back, law_le32_is_read_back,
    law_string_is_read_back, le16, le32, lemma_string_len, read_le16, read_le32, string_len,
    terminated,
};

verus! {

/// A text without NUL.
pub open spec fn plain(text: Seq<u8>) -> bool {
    forall|i: int| 0 <= i < text.len() ==> text[i] != 0
}

/// Joining bytes is associative.
proof fn lemma_assoc(a: Seq<u8>, b: Seq<u8>, c: Seq<u8>)
    ensures
        a + b + c == a + (b + c),
{
    assert(a + b + c =~= a + (b + c));
}

/// Skipping the first of two joined parts leaves the second.
proof fn lemma_skip(a: Seq<u8>, b: Seq<u8>, n: int)
    requires
        n == a.len(),
    ensures
        (a + b).skip(n) == b,
{
    assert((a + b).skip(n) =~= b);
}

/// Skipping twice is skipping both.
proof fn lemma_skip_twice(s: Seq<u8>, m: int, n: int)
    requires
        0 <= m,
        0 <= n,
        m + n <= s.len(),
    ensures
        s.skip(m).skip(n) == s.skip(m + n),
{
    assert(s.skip(m).skip(n) =~= s.skip(m + n));
}

/// A string at the end of a body needs no NUL: without one it is all that is left.
#[verifier::spinoff_prover]
pub proof fn law_last_string_needs_no_end(text: Seq<u8>)
    requires
        plain(text),
    ensures
        first_string(text) == text,
        after_string(text) == Seq::<u8>::empty(),
{
    lemma_string_len(text);
    if string_len(text) < text.len() {
        assert(text[string_len(text) as int] != 0);
    }
    assert(first_string(text) =~= text);
}

/// A name with a number behind it is read back.
proof fn lemma_name_and_number(text: Seq<u8>, number: u16, rest: Seq<u8>)
    requires
        plain(text),
    ensures
        ({
            let data = terminated(text) + le16(number) + rest;
            &&& first_string(data) == text
            &&& after_string(data) == le16(number) + rest
            &&& read_le16(after_string(data)) == number
            &&& after_string(data).skip(2) == rest
        }),
{
    lemma_assoc(terminated(text), le16(number), rest);
    law_string_is_read_back(text, le16(number) + rest);
    law_le16_is_read_back(number, rest);
}

/// Two strings are read back.
proof fn lemma_two_strings(first: Seq<u8>, second: Seq<u8>, rest: Seq<u8>)
    requires
        plain(first),
        plain(second),
    ensures
        ({
            let data = terminated(first) + terminated(second) + rest;
            &&& first_string(data) == first
            &&& after_string(data) == terminated(second) + rest
            &&& first_string(after_string(data)) == second
            &&& after_string(after_string(data)) == rest
        }),
{
    lemma_assoc(terminated(first), terminated(second), rest);
    law_string_is_read_back(first, terminated(second) + rest);
    law_string_is_read_back(second, rest);
}

/// Who quits or is refused is named with its number and the message.
#[verifier::spinoff_prover]
pub proof fn law_user_message_is_read_back(username: Seq<u8>, user_id: u16, message: Seq<u8>)
    requires
        plain(username),
        plain(message),
    ensures
        ({
            let data = user_message_body(username, user_id, message);
            let rest = after_string(data);
            &&& first_string(data) == username
            &&& read_le16(rest) == user_id
            &&& first_string(rest.skip(2)) == message
            &&& after_string(rest.skip(2)) == Seq::<u8>::empty()
        }),
{
    lemma_name_and_number(username, user_id, terminated(message));
    assert(terminated(message) + Seq::empty() =~= terminated(message));
    law_string_is_read_back(message, Seq::empty());
}

/// Who joins the lobby is named with its number, ping and connection type.
#[verifier::spinoff_prover]
pub proof fn law_user_joined_is_read_back(
    username: Seq<u8>,
    user_id: u16,
    ping: u32,
    conn_type: u8,
)
    requires
        plain(username),
    ensures
        ({
            let data = user_joined_body(username, user_id, ping, conn_type);
            let rest = after_string(data);
            &&& first_string(data) == username
            &&& read_le16(rest) == user_id
            &&& read_le32(rest.skip(2)) == ping
            &&& rest.skip(6) == seq![conn_type]
        }),
{
    let tail = le32(ping) + seq![conn_type];
    lemma_assoc(terminated(username) + le16(user_id), le32(ping), seq![conn_type]);
    lemma_name_and_number(username, user_id, tail);
    law_le32_is_read_back(ping, seq![conn_type]);
    lemma_skip_twice(le16(user_id) + tail, 2, 4);
}

/// A chat line names its sender.
#[verifier::spinoff_prover]
pub proof fn law_chat_is_read_back(username: Seq<u8>, message: Seq<u8>)
    requires
        plain(username),
        plain(message),
    ensures
        ({
            let data = chat_body(username, message);
            &&& first_string(data) == username
            &&& first_string(after_string(data)) == message
            &&& after_string(after_string(data)) == Seq::<u8>::empty()
        }),
{
    assert(chat_body(username, message) =~= terminated(username) + terminated(message)
        + Seq::empty());
    lemma_two_strings(username, message, Seq::empty());
}

/// A new room is announced with its creator, its name, the emulator and its number.
#[verifier::spinoff_prover]
pub proof fn law_new_game_is_read_back(
    username: Seq<u8>,
    game_name: Seq<u8>,
    emulator_name: Seq<u8>,
    game_id: u32,
)
    requires
        plain(username),
        plain(game_name),
        plain(emulator_name),
    ensures
        ({
            let data = new_game_body(username, game_name, emulator_name, game_id);
            let second = after_string(data);
            let third = after_string(second);
            let rest = after_string(third);
            &&& first_string(data) == username
            &&& first_string(second) == game_name
            &&& first_string(third) == emulator_name
            &&& read_le32(rest) == game_id
            &&& rest.len() == 4
        }),
{
    lemma_three_strings(username, game_name, emulator_name, le32(game_id));
    lemma_number_alone(game_id);
}

/// Three strings are read back.
proof fn lemma_three_strings(first: Seq<u8>, second: Seq<u8>, third: Seq<u8>, tail: Seq<u8>)
    requires
        plain(first),
        plain(second),
        plain(third),
    ensures
        ({
            let data = terminated(first) + terminated(second) + terminated(third) + tail;
            &&& first_string(data) == first
            &&& first_string(after_string(data)) == second
            &&& first_string(after_string(after_string(data))) == third
            &&& after_string(after_string(after_string(data))) == tail
        }),
{
    lemma_assoc(terminated(first) + terminated(second), terminated(third), tail);
    lemma_two_strings(first, second, terminated(third) + tail);
    law_string_is_read_back(third, tail);
}

/// A number at the end of a body is read back.
proof fn lemma_number_alone(number: u32)
    ensures
        read_le32(le32(number)) == number,
        le32(number).len() == 4,
{
    assert(le32(number) + Seq::empty() =~= le32(number));
    law_le32_is_read_back(number, Seq::empty());
}

/// A room is reported with its number, status, players and seats.
#[verifier::spinoff_prover]
pub proof fn law_game_status_is_read_back(
    game_id: u32,
    game_status: u8,
    num_players: u8,
    max_players: u8,
)
    ensures
        ({
            let data = game_status_body(game_id, game_status, num_players, max_players);
            &&& data[0] == 0
            &&& read_le32(data.skip(1)) == game_id
            &&& data.skip(5) == seq![game_status, num_players, max_players]
        }),
{
    let data = game_status_body(game_id, game_status, num_players, max_players);
    let tail = seq![game_status, num_players, max_players];
    let head = empty_string() + le32(game_id);
    assert(data =~= head + tail);
    lemma_assoc(empty_string(), le32(game_id), tail);
    lemma_skip(empty_string(), le32(game_id) + tail, 1);
    law_le32_is_read_back(game_id, tail);
    lemma_skip(head, tail, 5);
}

/// Who joins a room is named with its ping, number and connection type.
#[verifier::spinoff_prover]
pub proof fn law_join_game_is_read_back(
    username: Seq<u8>,
    ping: u32,
    user_id: u16,
    conn_type: u8,
)
    requires
        plain(username),
    ensures
        ({
            let data = join_game_body(username, ping, user_id, conn_type);
            let named = data.skip(5);
            let rest = after_string(named);
            &&& data[0] == 0
            &&& read_le32(data.skip(1)) == 0
            &&& first_string(named) == username
            &&& read_le32(rest) == ping
            &&& read_le16(rest.skip(4)) == user_id
            &&& rest.skip(6) == seq![conn_type]
        }),
{
    let data = join_game_body(username, ping, user_id, conn_type);
    let last = le16(user_id) + seq![conn_type];
    let tail = le32(ping) + last;
    let named = terminated(username) + tail;
    let head = empty_string() + le32(0);
    lemma_assoc(head + terminated(username) + le32(ping), le16(user_id), seq![conn_type]);
    lemma_assoc(head + terminated(username), le32(ping), last);
    lemma_assoc(head, terminated(username), tail);
    assert(data == head + named);
    lemma_skip(head, named, 5);
    lemma_assoc(empty_string(), le32(0), named);
    lemma_skip(empty_string(), le32(0) + named, 1);
    law_le32_is_read_back(0, named);
    law_string_is_read_back(username, tail);
    law_le32_is_read_back(ping, last);
    law_le16_is_read_back(user_id, seq![conn_type]);
    lemma_skip_twice(tail, 4, 2);
}

/// Who leaves a room is named with its number.
#[verifier::spinoff_prover]
pub proof fn law_quit_game_is_read_back(username: Seq<u8>, user_id: u16)
    requires
        plain(username),
    ensures
        ({
            let data = quit_game_body(username, user_id);
            &&& first_string(data) == username
            &&& read_le16(after_string(data)) == user_id
            &&& after_string(data).len() == 2
        }),
{
    assert(quit_game_body(username, user_id) =~= terminated(username) + le16(user_id)
        + Seq::empty());
    lemma_name_and_number(username, user_id, Seq::empty());
}

/// A room that closed and the player number and seat count of a start are read back.
#[verifier::spinoff_prover]
pub proof fn law_room_numbers_are_read_back(game_id: u32, delay: u16, number: u8, total: u8)
    ensures
        close_game_body(game_id).len() == 5,
        close_game_body(game_id)[0] == 0,
        read_le32(close_game_body(game_id).skip(1)) == game_id,
        start_game_body(delay, number, total).len() == 5,
        start_game_body(delay, number, total)[0] == 0,
        read_le16(start_game_body(delay, number, total).skip(1)) == delay,
        start_game_body(delay, number, total)[3] == number,
        start_game_body(delay, number, total)[4] == total,
{
    assert(close_game_body(game_id).skip(1) =~= le32(game_id) + Seq::empty());
    law_le32_is_read_back(game_id, Seq::empty());
    assert(start_game_body(delay, number, total).skip(1) =~= le16(delay) + seq![number, total]);
    law_le16_is_read_back(delay, seq![number, total]);
}

/// Who drops out is named with its player number.
#[verifier::spinoff_prover]
pub proof fn law_drop_game_is_read_back(username: Seq<u8>, number: u8)
    requires
        plain(username),
    ensures
        first_string(drop_game_body(username, number)) == username,
        after_string(drop_game_body(username, number)) == seq![number],
{
    law_string_is_read_back(username, seq![number]);
}

/// Game data is read back by its length, and a position as it is.
#[verifier::spinoff_prover]
pub proof fn law_game_data_is_read_back(data: Seq<u8>, position: u8)
    requires
        data.len() < 65536,
    ensures
        game_data_body(data)[0] == 0,
        read_le16(game_data_body(data).skip(1)) == data.len(),
        game_data_body(data).skip(3) == data,
        game_cache_body(position) == seq![0u8, position],
{
    let len = data.len() as u16;
    assert(game_data_body(data).skip(1) =~= le16(len) + data);
    law_le16_is_read_back(len, data);
    assert(game_data_body(data).skip(3) =~= data);
    assert(game_cache_body(position) =~= seq![0u8, position]);
}

/// The handshake message holds the numbers from 0 to 3.
#[verifier::spinoff_prover]
pub proof fn law_handshake_message_counts()
    ensures
        server_to_client_ack_body() == seq![
            0u8, 0u8, 0u8, 0u8, 0u8, 1u8, 0u8, 0u8, 0u8, 2u8, 0u8, 0u8, 0u8, 3u8, 0u8, 0u8, 0u8,
        ],
{
    assert(server_to_client_ack_body() =~= seq![
        0u8, 0u8, 0u8, 0u8, 0u8, 1u8, 0u8, 0u8, 0u8, 2u8, 0u8, 0u8, 0u8, 3u8, 0u8, 0u8, 0u8,
    ]);
}

proof fn lemma_player_entries_split(entry: PlayerEntryModel, others: Seq<PlayerEntryModel>)
    ensures
        player_entries_bytes(seq![entry] + others) == player_entry_bytes(entry)
            + player_entries_bytes(others),
    decreases others.len(),
{
    let all = seq![entry] + others;
    if others.len() == 0 {
        assert(all.drop_last() =~= Seq::empty());
        assert(player_entries_bytes(all.drop_last()) =~= Seq::empty());
        assert(all.last() == entry);
    } else {
        assert(all.drop_last() =~= seq![entry] + others.drop_last());
        lemma_player_entries_split(entry, others.drop_last());
        assert(all.last() == others.last());
    }
    assert(player_entries_bytes(all) =~= player_entry_bytes(entry) + player_entries_bytes(others));
}

proof fn lemma_user_entries_split(entry: UserEntryModel, others: Seq<UserEntryModel>)
    ensures
        user_entries_bytes(seq![entry] + others) == user_entry_bytes(entry) + user_entries_bytes(
            others,
        ),
    decreases others.len(),
{
    let all = seq![entry] + others;
    if others.len() == 0 {
        assert(all.drop_last() =~= Seq::empty());
        assert(user_entries_bytes(all.drop_last()) =~= Seq::empty());
        assert(all.last() == entry);
    } else {
        assert(all.drop_last() =~= seq![entry] + others.drop_last());
        lemma_user_entries_split(entry, others.drop_last());
        assert(all.last() == others.last());
    }
    assert(user_entries_bytes(all) =~= user_entry_bytes(entry) + user_entries_bytes(others));
}

proof fn lemma_game_entries_split(entry: GameEntryModel, others: Seq<GameEntryModel>)
    ensures
        game_entries_bytes(seq![entry] + others) == game_entry_bytes(entry) + game_entries_bytes(
            others,
        ),
    decreases others.len(),
{
    let all = seq![entry] + others;
    if others.len() == 0 {
        assert(all.drop_last() =~= Seq::empty());
        assert(game_entries_bytes(all.drop_last()) =~= Seq::empty());
        assert(all.last() == entry);
    } else {
        assert(all.drop_last() =~= seq![entry] + others.drop_last());
        lemma_game_entries_split(entry, others.drop_last());
        assert(all.last() == others.last());
    }
    assert(game_entries_bytes(all) =~= game_entry_bytes(entry) + game_entries_bytes(others));
}

/// A list of players says how many there are, and its entries are read one after the
/// other: name, ping, number and connection type, and then the entries that follow.
#[verifier::spinoff_prover]
pub proof fn law_player_list_is_read_back(
    entries: Seq<PlayerEntryModel>,
    entry: PlayerEntryModel,
    others: Seq<PlayerEntryModel>,
    end: Seq<u8>,
)
    requires
        entries.len() <= u32::MAX,
        plain(entry.username),
    ensures
        player_information_body(entries)[0] == 0,
        read_le32(player_information_body(entries).skip(1)) == entries.len(),
        player_information_body(entries).skip(5) == player_entries_bytes(entries),
        player_entries_bytes(Seq::empty()) == Seq::<u8>::empty(),
        ({
            let data = player_entries_bytes(seq![entry] + others) + end;
            let rest = after_string(data);
            &&& first_string(data) == entry.username
            &&& read_le32(rest) == entry.ping
            &&& read_le16(rest.skip(4)) == entry.user_id
            &&& rest[6] == entry.conn_type
            &&& rest.skip(7) == player_entries_bytes(others) + end
        }),
{
    let bytes = player_entries_bytes(entries);
    let count = count_bytes(entries.len());
    lemma_count(entries.len(), bytes);
    lemma_assoc(empty_string(), count, bytes);
    lemma_skip(empty_string(), count + bytes, 1);
    lemma_skip(empty_string() + count, bytes, 5);
    lemma_player_entry(entry, others, end);
}

/// The first entry of a list of players is read back, and the others follow it.
#[verifier::spinoff_prover]
proof fn lemma_player_entry(
    entry: PlayerEntryModel,
    others: Seq<PlayerEntryModel>,
    end: Seq<u8>,
)
    requires
        plain(entry.username),
    ensures
        ({
            let data = player_entries_bytes(seq![entry] + others) + end;
            let rest = after_string(data);
            &&& first_string(data) == entry.username
            &&& read_le32(rest) == entry.ping
            &&& read_le16(rest.skip(4)) == entry.user_id
            &&& rest[6] == entry.conn_type
            &&& rest.skip(7) == player_entries_bytes(others) + end
        }),
{
    lemma_player_entries_split(entry, others);
    let more = player_entries_bytes(others);
    let after = more + end;
    let kind = seq![entry.conn_type];
    let last = le16(entry.user_id) + (kind + after);
    let tail = le32(entry.ping) + last;
    let name = terminated(entry.username);
    lemma_assoc(player_entry_bytes(entry), more, end);
    lemma_assoc(name + le32(entry.ping) + le16(entry.user_id), kind, after);
    lemma_assoc(name + le32(entry.ping), le16(entry.user_id), kind + after);
    lemma_assoc(name, le32(entry.ping), last);
    law_string_is_read_back(entry.username, tail);
    law_le32_is_read_back(entry.ping, last);
    law_le16_is_read_back(entry.user_id, kind + after);
    lemma_skip_twice(tail, 4, 2);
    lemma_skip_twice(tail, 6, 1);
    lemma_skip(kind, after, 1);
    assert(tail[6] == tail.skip(6)[0]);
}

/// A snapshot of the lobby says how many users and rooms there are, and then has the
/// users and the rooms.
#[verifier::spinoff_prover]
pub proof fn law_lobby_counts_are_read_back(
    users: Seq<UserEntryModel>,
    games: Seq<GameEntryModel>,
)
    requires
        users.len() <= u32::MAX,
        games.len() <= u32::MAX,
    ensures
        server_status_body(users, games)[0] == 0,
        read_le32(server_status_body(users, games).skip(1)) == users.len(),
        read_le32(server_status_body(users, games).skip(5)) == games.len(),
        server_status_body(users, games).skip(9) == user_entries_bytes(users) + game_entries_bytes(
            games,
        ),
{
    let bytes = user_entries_bytes(users) + game_entries_bytes(games);
    lemma_count(users.len(), count_bytes(games.len()) + bytes);
    lemma_count(games.len(), bytes);
    lemma_five_parts(
        empty_string(),
        count_bytes(users.len()),
        count_bytes(games.len()),
        user_entries_bytes(users),
        game_entries_bytes(games),
    );
}

/// A count is read back.
#[verifier::spinoff_prover]
proof fn lemma_count(n: nat, rest: Seq<u8>)
    requires
        n <= u32::MAX,
    ensures
        read_le32(count_bytes(n) + rest) == n,
        count_bytes(n).len() == 4,
{
    assert(n % 0x1_0000_0000 == n);
    law_le32_is_read_back(n as u32, rest);
}

/// A byte, two numbers and two parts are found where they stand.
proof fn lemma_five_parts(a: Seq<u8>, b: Seq<u8>, c: Seq<u8>, d: Seq<u8>, e: Seq<u8>)
    requires
        a.len() == 1,
        b.len() == 4,
        c.len() == 4,
    ensures
        (a + b + c + d + e)[0] == a[0],
        (a + b + c + d + e).skip(1) == b + (c + (d + e)),
        (a + b + c + d + e).skip(5) == c + (d + e),
        (a + b + c + d + e).skip(9) == d + e,
{
    let all = a + b + c + d + e;
    lemma_assoc(a + b + c, d, e);
    lemma_assoc(a + b, c, d + e);
    lemma_assoc(a, b, c + (d + e));
    lemma_skip(a, b + (c + (d + e)), 1);
    lemma_skip(a + b, c + (d + e), 5);
    lemma_skip(a + b + c, d + e, 9);
}

/// The users of a snapshot are read one after the other: name, ping, status, number
/// and connection type, and then the users that follow.
#[verifier::spinoff_prover]
pub proof fn law_user_list_is_read_back(
    user: UserEntryModel,
    others: Seq<UserEntryModel>,
    end: Seq<u8>,
)
    requires
        plain(user.username),
    ensures
        user_entries_bytes(Seq::empty()) == Seq::<u8>::empty(),
        ({
            let data = user_entries_bytes(seq![user] + others) + end;
            let rest = after_string(data);
            &&& first_string(data) == user.username
            &&& read_le32(rest) == user.ping
            &&& rest[4] == user.player_status
            &&& read_le16(rest.skip(5)) == user.user_id
            &&& rest[7] == user.conn_type
            &&& rest.skip(8) == user_entries_bytes(others) + end
        }),
{
    lemma_user_entries_split(user, others);
    let more = user_entries_bytes(others);
    let after_user = more + end;
    let name = terminated(user.username);
    let ping = le32(user.ping);
    let status = seq![user.player_status];
    let kind = seq![user.conn_type];
    let last = le16(user.user_id) + (kind + after_user);
    let tail = ping + (status + last);
    lemma_assoc(user_entry_bytes(user), more, end);
    lemma_assoc(name + ping + status + le16(user.user_id), kind, after_user);
    lemma_assoc(name + ping + status, le16(user.user_id), kind + after_user);
    lemma_assoc(name + ping, status, last);
    lemma_assoc(name, ping, status + last);
    law_string_is_read_back(user.username, tail);
    law_le32_is_read_back(user.ping, status + last);
    lemma_skip_twice(tail, 4, 1);
    lemma_skip(status, last, 1);
    assert(tail[4] == tail.skip(4)[0]);
    law_le16_is_read_back(user.user_id, kind + after_user);
    lemma_skip_twice(tail, 5, 2);
    lemma_skip_twice(tail, 7, 1);
    lemma_skip(kind, after_user, 1);
    assert(tail[7] == tail.skip(7)[0]);
}

/// The digits of a number are decimal digits.
pub proof fn lemma_digits(n: nat)
    ensures
        forall|i: int| 0 <= i < decimal(n).len() ==> '0' <= #[trigger] decimal(n)[i] <= '9',
    decreases n,
{
    if n >= 10 {
        lemma_digits(n / 10);
    }
    let code = (48 + n % 10) as u8;
    assert(48 <= code <= 57);
    assert('0' <= code as char <= '9');
    assert(digit_char(n % 10) == code as char);
    assert forall|i: int| 0 <= i < decimal(n).len() implies '0' <= #[trigger] decimal(n)[i]
        <= '9' by {
        if n >= 10 && i < decimal(n / 10).len() {
            assert(decimal(n)[i] == decimal(n / 10)[i]);
        }
    }
}

/// How full a room is: the number of players, a slash and the number of seats, in
/// ASCII.
#[verifier::spinoff_prover]
pub proof fn law_occupancy_is_text(num_players: u8, max_players: u8)
    ensures
        ({
            let text = decimal(num_players as nat) + seq!['/'] + decimal(max_players as nat);
            &&& occupancy(num_players, max_players).len() == text.len()
            &&& forall|i: int|
                0 <= i < text.len() ==> #[trigger] occupancy(num_players, max_players)[i]
                    == text[i] as u8
        }),
        plain(occupancy(num_players, max_players)),
{
    reveal_strlit("/");
    assert("/"@ =~= seq!['/']);
    lemma_digits(num_players as nat);
    lemma_digits(max_players as nat);
    let text = decimal(num_players as nat) + seq!['/'] + decimal(max_players as nat);
    assert forall|i: int| 0 <= i < text.len() implies '/' <= #[trigger] text[i] <= '9' by {
        let n = decimal(num_players as nat).len();
        if i < n {
            assert(text[i] == decimal(num_players as nat)[i]);
        } else if i > n {
            assert(text[i] == decimal(max_players as nat)[i - n - 1]);
        }
    }
    assert(is_ascii_chars(text));
    is_ascii_chars_encode_utf8(text);
    assert forall|i: int| 0 <= i < text.len() implies #[trigger] occupancy(
        num_players,
        max_players,
    )[i] == text[i] as u8 && text[i] as u8 != 0 by {
        assert('/' <= text[i] <= '9');
    }
}

/// The rooms of a snapshot are read one after the other: name, number, emulator,
/// owner, players of seats and status, and then the rooms that follow.
#[verifier::spinoff_prover]
pub proof fn law_room_list_is_read_back(
    game: GameEntryModel,
    others: Seq<GameEntryModel>,
    end: Seq<u8>,
)
    requires
        plain(game.game_name),
        plain(game.emulator_name),
        plain(game.owner),
    ensures
        game_entries_bytes(Seq::empty()) == Seq::<u8>::empty(),
        ({
            let data = game_entries_bytes(seq![game] + others) + end;
            let numbered = after_string(data);
            let named = numbered.skip(4);
            let owned = after_string(named);
            let filled = after_string(owned);
            let rest = after_string(filled);
            &&& first_string(data) == game.game_name
            &&& read_le32(numbered) == game.game_id
            &&& first_string(named) == game.emulator_name
            &&& first_string(owned) == game.owner
            &&& first_string(filled) == occupancy(game.num_players, game.max_players)
            &&& rest[0] == game.game_status
            &&& rest.skip(1) == game_entries_bytes(others) + end
        }),
{
    law_occupancy_is_text(game.num_players, game.max_players);
    lemma_game_entries_split(game, others);
    let seats = occupancy(game.num_players, game.max_players);
    let ended = seq![game.game_status] + (game_entries_bytes(others) + end);
    let filled = terminated(seats) + ended;
    let owned = terminated(game.owner) + filled;
    let named = terminated(game.emulator_name) + owned;
    let number = le32(game.game_id);
    let numbered = number + named;
    let more = game_entries_bytes(others);
    let name = terminated(game.game_name);
    let emulator = terminated(game.emulator_name);
    let owner = terminated(game.owner);
    lemma_assoc(game_entry_bytes(game), more, end);
    lemma_assoc(
        name + number + emulator + owner + terminated(seats),
        seq![game.game_status],
        more + end,
    );
    lemma_assoc(name + number + emulator + owner, terminated(seats), ended);
    lemma_assoc(name + number + emulator, owner, filled);
    lemma_assoc(name + number, emulator, owned);
    lemma_assoc(name, number, named);
    law_string_is_read_back(game.game_name, numbered);
    law_le32_is_read_back(game.game_id, named);
    law_string_is_read_back(game.emulator_name, owned);
    law_string_is_read_back(game.owner, filled);
    law_string_is_read_back(seats, ended);
    lemma_skip(seq![game.game_status], more + end, 1);
}

} // verus!
