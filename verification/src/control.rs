//! Answers to probes that belong to no session.

use vstd::prelude::*;
use crate::bytes_util::bytes_equal;
use crate::text::{decimal_string, text_bytes};
#[allow(unused_imports)]
use crate::text::decimal;
#[allow(unused_imports)]
use crate::wire::terminated;
use crate::wire::put_string;
#[allow(unused_imports)]
use vstd::utf8::encode_utf8;

verus! {

/// A text as a probe or an answer: its bytes and a NUL.
pub open spec fn probe(text: Seq<char>) -> Seq<u8> {
    terminated(encode_utf8(text))
}

/// A text as a probe or an answer.
fn probe_bytes(text: &str) -> (bytes: Vec<u8>)
    ensures
        bytes@ == probe(text@),
{
    let body: Vec<u8> = text_bytes(text);
    let mut bytes: Vec<u8> = Vec::new();
    put_string(&mut bytes, body.as_slice());
    assert(bytes@ =~= probe(text@));
    bytes
}

/// The answer on the main port: a ping is answered at once, anything else belongs
/// to a session.
pub fn main_port_reply(data: &[u8]) -> (reply: Option<Vec<u8>>)
    ensures
        match reply {
            Some(bytes) => data@ == probe("PING"@) && bytes@ == probe("PONG"@),
            None => data@ != probe("PING"@),
        },
{
    let ping: Vec<u8> = probe_bytes("PING");
    if bytes_equal(data, ping.as_slice()) {
        Some(probe_bytes("PONG"))
    } else {
        None
    }
}

/// The answer on the control port: a client that says hello is told the main
/// port, a ping is answered, anything else is ignored.
pub open spec fn control_answer(data: Seq<u8>, main_port: u16) -> Option<Seq<u8>> {
    if data == probe("HELLO0.83"@) {
        Some(probe("HELLOD00D"@ + decimal(main_port as nat)))
    } else if data == probe("PING"@) {
        Some(probe("PONG"@))
    } else {
        None
    }
}

/// The answer on the control port.
pub fn control_reply(data: &[u8], main_port: u16) -> (reply: Option<Vec<u8>>)
    ensures
        match reply {
            Some(bytes) => control_answer(data@, main_port) == Some(bytes@),
            None => control_answer(data@, main_port) is None,
        },
{
    let hello: Vec<u8> = probe_bytes("HELLO0.83");
    if bytes_equal(data, hello.as_slice()) {
        let port: String = decimal_string(main_port as u64);
        let answer: String = "HELLOD00D".to_owned().concat(port.as_str());
        Some(probe_bytes(answer.as_str()))
    } else {
        main_port_reply(data)
    }
}

} // verus!
