//! Reading and writing the fields of a message body.

use bytes::{Buf, BytesMut};
use vstd::prelude::*;

verus! {

/// `bytes::BytesMut`: a read buffer, of which only `unread` is known.
#[verifier::external_type_specification]
#[verifier::external_body]
pub struct ExBytesMut(bytes::BytesMut);

/// The bytes of a read buffer that have not been read yet.
pub uninterp spec fn unread(buf: bytes::BytesMut) -> Seq<u8>;

/// `BytesMut::from` on a slice: a buffer that holds a copy of the slice.
#[verifier::external_body]
pub(crate) fn buffer_of(data: &[u8]) -> (buf: BytesMut)
    ensures
        unread(buf) == data@,
{
    BytesMut::from(data)
}

/// `BytesMut::len`: the number of bytes that have not been read.
#[verifier::external_body]
pub(crate) fn buffer_len(buf: &BytesMut) -> (n: usize)
    ensures
        n == unread(*buf).len(),
{
    buf.len()
}

/// `BytesMut::is_empty`: whether every byte has been read.
#[verifier::external_body]
pub(crate) fn buffer_is_empty(buf: &BytesMut) -> (empty: bool)
    ensures
        empty == (unread(*buf).len() == 0),
{
    buf.is_empty()
}

/// `Buf::get_u8`: takes the next byte. It panics on an empty buffer.
#[verifier::external_body]
pub(crate) fn take_u8(buf: &mut BytesMut) -> (value: u8)
    requires
        unread(*old(buf)).len() >= 1,
    ensures
        value == unread(*old(buf))[0],
        unread(*final(buf)) == unread(*old(buf)).skip(1),
{
    buf.get_u8()
}

/// `Buf::get_u16_le`: takes the next two bytes, least significant first. It
/// panics when fewer are left.
#[verifier::external_body]
pub(crate) fn take_u16_le(buf: &mut BytesMut) -> (value: u16)
    requires
        unread(*old(buf)).len() >= 2,
    ensures
        value == read_le16(unread(*old(buf))),
        unread(*final(buf)) == unread(*old(buf)).skip(2),
{
    buf.get_u16_le()
}

/// `Buf::get_u32_le`: takes the next four bytes, least significant first. It
/// panics when fewer are left.
#[verifier::external_body]
pub(crate) fn take_u32_le(buf: &mut BytesMut) -> (value: u32)
    requires
        unread(*old(buf)).len() >= 4,
    ensures
        value == read_le32(unread(*old(buf))),
        unread(*final(buf)) == unread(*old(buf)).skip(4),
{
    buf.get_u32_le()
}

/// `BytesMut::split_to`: takes the next `n` bytes, here as a vector. It panics
/// when fewer are left.
#[verifier::external_body]
pub(crate) fn take_bytes(buf: &mut BytesMut, n: usize) -> (data: Vec<u8>)
    requires
        n <= unread(*old(buf)).len(),
    ensures
        data@ == unread(*old(buf)).take(n as int),
        unread(*final(buf)) == unread(*old(buf)).skip(n as int),
{
    buf.split_to(n).to_vec()
}

/// The number in the first two bytes, least significant first.
pub open spec fn read_le16(data: Seq<u8>) -> int {
    data[0] + 256 * data[1]
}

/// The number in the first four bytes, least significant first.
pub open spec fn read_le32(data: Seq<u8>) -> int {
    data[0] + 256 * data[1] + 65536 * data[2] + 16777216 * data[3]
}

/// A 16-bit number, least significant byte first.
pub open spec fn le16(value: u16) -> Seq<u8> {
    seq![(value % 256) as u8, (value / 256) as u8]
}

/// A 32-bit number, least significant byte first.
pub open spec fn le32(value: u32) -> Seq<u8> {
    seq![
        (value % 256) as u8,
        (value / 256 % 256) as u8,
        (value / 65536 % 256) as u8,
        (value / 16777216) as u8,
    ]
}

/// A 16-bit number is read back as it was written.
pub proof fn law_le16_is_read_back(value: u16, rest: Seq<u8>)
    ensures
        read_le16(le16(value) + rest) == value,
        (le16(value) + rest).skip(2) == rest,
{
    assert((le16(value) + rest).skip(2) =~= rest);
}

/// A 32-bit number is read back as it was written.
pub proof fn law_le32_is_read_back(value: u32, rest: Seq<u8>)
    ensures
        read_le32(le32(value) + rest) == value,
        (le32(value) + rest).skip(4) == rest,
{
    assert((le32(value) + rest).skip(4) =~= rest);
    let v = value as int;
    assert(v == v % 256 + 256 * (v / 256 % 256) + 65536 * (v / 65536 % 256) + 16777216 * (v
        / 16777216));
}

/// Bytes before the first NUL, or to the end.
pub open spec fn string_len(data: Seq<u8>) -> nat
    decreases data.len(),
{
    if data.len() == 0 || data[0] == 0 {
        0
    } else {
        1 + string_len(data.skip(1))
    }
}

/// The string at the front of a body: up to the first NUL, or to the end.
pub open spec fn first_string(data: Seq<u8>) -> Seq<u8> {
    data.take(string_len(data) as int)
}

/// What follows the string at the front of a body; its NUL is skipped.
pub open spec fn after_string(data: Seq<u8>) -> Seq<u8> {
    if string_len(data) < data.len() {
        data.skip(string_len(data) as int + 1)
    } else {
        Seq::empty()
    }
}

/// The string at the front is part of the body.
pub proof fn lemma_string_len(data: Seq<u8>)
    ensures
        string_len(data) <= data.len(),
        string_len(data) < data.len() ==> data[string_len(data) as int] == 0,
        forall|i: int| 0 <= i < string_len(data) ==> data[i] != 0,
    decreases data.len(),
{
    if data.len() > 0 && data[0] != 0 {
        lemma_string_len(data.skip(1));
        assert forall|i: int| 0 <= i < string_len(data) implies data[i] != 0 by {
            if i > 0 {
                assert(data.skip(1)[i - 1] == data[i]);
            }
        }
    }
}

/// A byte string as it travels: its bytes and a NUL.
pub open spec fn terminated(text: Seq<u8>) -> Seq<u8> {
    text.push(0u8)
}

/// A string without NUL is read back as it was written.
pub proof fn law_string_is_read_back(text: Seq<u8>, rest: Seq<u8>)
    requires
        forall|i: int| 0 <= i < text.len() ==> text[i] != 0,
    ensures
        first_string(terminated(text) + rest) == text,
        after_string(terminated(text) + rest) == rest,
{
    let data = terminated(text) + rest;
    lemma_string_len(data);
    let n = string_len(data) as int;
    assert(data[text.len() as int] == 0);
    if n < text.len() {
        assert(data[n] == text[n]);
    }
    assert(first_string(data) =~= text);
    assert(after_string(data) =~= rest);
}

/// Takes the string at the front of a body, as bytes to preserve its encoding.
pub fn read_string_bytes(buf: &mut BytesMut) -> (text: Vec<u8>)
    ensures
        text@ == first_string(unread(*old(buf))),
        unread(*final(buf)) == after_string(unread(*old(buf))),
{
    let ghost all = unread(*buf);
    let mut text: Vec<u8> = Vec::new();
    assert(all.skip(0) =~= all);
    assert(text@ =~= all.take(0));
    let mut done: bool = false;
    while !done && !buffer_is_empty(buf)
        invariant
            !done ==> {
                &&& text@.len() <= all.len()
                &&& text@ == all.take(text@.len() as int)
                &&& unread(*buf) == all.skip(text@.len() as int)
                &&& string_len(all) == text@.len() + string_len(unread(*buf))
            },
            done ==> text@ == first_string(all) && unread(*buf) == after_string(all),
        decreases unread(*buf).len(),
    {
        proof {
            lemma_string_len(all);
        }
        let ghost here = unread(*buf);
        let b: u8 = take_u8(buf);
        assert(here[0] == all[text@.len() as int]);
        if b == 0 {
            done = true;
            assert(unread(*buf) =~= after_string(all));
        } else {
            text.push(b);
            assert(text@ =~= all.take(text@.len() as int));
            assert(unread(*buf) =~= all.skip(text@.len() as int));
        }
    }
    proof {
        lemma_string_len(all);
        if !done {
            assert(unread(*buf) =~= after_string(all));
        }
    }
    text
}

/// Appends a string and its NUL.
pub fn put_string(target: &mut Vec<u8>, text: &[u8])
    ensures
        final(target)@ == old(target)@ + terminated(text@),
{
    crate::bytes_util::append_bytes(target, text);
    target.push(0);
    assert(target@ =~= old(target)@ + terminated(text@));
}

/// Appends a 16-bit number, least significant byte first.
pub fn put_u16_le(target: &mut Vec<u8>, value: u16)
    ensures
        final(target)@ == old(target)@ + le16(value),
{
    target.push((value % 256) as u8);
    target.push((value / 256) as u8);
    assert(target@ =~= old(target)@ + le16(value));
}

/// Appends a 32-bit number, least significant byte first.
pub fn put_u32_le(target: &mut Vec<u8>, value: u32)
    ensures
        final(target)@ == old(target)@ + le32(value),
{
    target.push((value % 256) as u8);
    target.push((value / 256 % 256) as u8);
    target.push((value / 65536 % 256) as u8);
    target.push((value / 16777216) as u8);
    assert(target@ =~= old(target)@ + le32(value));
}

/// Appends one byte.
pub fn put_u8(target: &mut Vec<u8>, value: u8)
    ensures
        final(target)@ == old(target)@ + seq![value],
{
    target.push(value);
    assert(target@ =~= old(target)@ + seq![value]);
}

} // verus!
