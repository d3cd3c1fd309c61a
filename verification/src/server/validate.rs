//! Checking, before reading, that the bytes a client sent hold a whole
//! packet: where they do not, reading them stops the connection.

use vstd::prelude::*;
use vstd::utf8::*;

use crate::world::player::ConnectionState;
use super::network::{
    lemma_varint_len_bounds, lemma_varint_len_skip, string_from_utf8, string_payload, string_payload_len,
    varint_bits, varint_len_from, varint_read_len,
};
use super::{
    FieldView, client_information_body, handshake_body, lemma_packet_body_bounds,
    lemma_string_at_bounds, lemma_varint_at_bounds, login_start_body, packet_at, packet_body, ping_body,
    plugin_message_head, string_at, varint_at,
};

verus! {

/// Where a decoded body ends, if it could be decoded.
pub open spec fn end_of(body: Option<(Seq<FieldView>, int)>) -> Option<usize> {
    match body {
        Some((_, n)) => Some(n as usize),
        None => None,
    }
}

/// A copy of `s[from..to]`.
fn copy_bytes(s: &[u8], from: usize, to: usize) -> (v: Vec<u8>)
    requires
        from <= to <= s@.len(),
    ensures
        v@ == s@.subrange(from as int, to as int),
{
    let mut v: Vec<u8> = Vec::new();
    let mut i = from;
    while i < to
        invariant
            from <= i <= to <= s@.len(),
            v@ == s@.subrange(from as int, i as int),
        decreases to - i,
    {
        v.push(s[i]);
        i = i + 1;
        assert(v@ =~= s@.subrange(from as int, i as int));
    }
    v
}

/// Decodes the VarInt at `p`: its value and the position after it, where
/// all its bytes are there.
fn decode_varint(s: &[u8], p: usize) -> (r: Option<(i32, usize)>)
    requires
        p <= s@.len(),
    ensures
        r == (match varint_at(s@, p as int) {
            Some((v, q)) => Some((v, q as usize)),
            None => None::<(i32, usize)>,
        }),
{
    let ghost t = s@.skip(p as int);
    proof {
        lemma_varint_len_skip(t, 0);
    }
    let mut value: u32 = 0;
    let mut i: usize = 0;
    while i < 5
        invariant
            p <= s@.len(),
            t == s@.skip(p as int),
            0 <= i <= 5,
            forall|j: int| 0 <= j < i ==> t[j] >= 0x80,
            varint_read_len(t) == varint_len_from(t, i as nat),
            value == varint_bits(t, i as nat),
        decreases 5 - i,
    {
        proof {
            lemma_varint_len_bounds(t, i as nat);
        }
        if i >= s.len() - p {
            return None;
        }
        let b = s[p + i];
        assert(b == t[i as int]);
        assert((((b & 0x7f) as u32) << (7 * i as u32)) == (((t[i as int] & 0x7f) as u32) << ((7 * i) as u32)));
        value = value | (((b & 0x7f) as u32) << (7 * i as u32));
        if b < 0x80 {
            return Some((#[verifier::truncate] (value as i32), p + i + 1));
        }
        i = i + 1;
        proof {
            lemma_varint_len_skip(t, i as nat);
        }
    }
    if s.len() - p <= 5 {
        None
    } else {
        Some((#[verifier::truncate] (value as i32), p + 6))
    }
}

/// Where the string at `p` ends, where all its bytes are there and they
/// are UTF-8.
fn string_end(s: &[u8], p: usize) -> (r: Option<usize>)
    requires
        p <= s@.len(),
    ensures
        r == (match string_at(s@, p as int) {
            Some((_, q)) => Some(q as usize),
            None => None::<usize>,
        }),
{
    let ghost t = s@.skip(p as int);
    match decode_varint(s, p) {
        None => {
            proof {
                lemma_varint_len_bounds(t, 0);
            }
            None
        },
        Some((n, q)) => {
            let count: usize = if n > 0 {
                n as usize
            } else {
                0
            };
            assert(count == string_payload_len(t));
            if count > s.len() - q {
                return None;
            }
            let bytes = copy_bytes(s, q, q + count);
            assert(bytes@ =~= string_payload(t));
            let text = string_from_utf8(bytes);
            if text.is_some() {
                Some(q + count)
            } else {
                None
            }
        },
    }
}

fn handshake_end(t: &[u8]) -> (r: Option<usize>)
    ensures
        r == end_of(handshake_body(t@)),
{
    reveal(handshake_body);
    let _total = t.len();
    proof {
        lemma_varint_at_bounds(t@, 0);
    }
    let p1 = match decode_varint(t, 0) {
        None => {
            return None;
        },
        Some((_, q)) => q,
    };
    proof {
        lemma_string_at_bounds(t@, p1 as int);
    }
    let p2 = match string_end(t, p1) {
        None => {
            return None;
        },
        Some(q) => q,
    };
    if t.len() - p2 < 2 {
        return None;
    }
    proof {
        lemma_varint_at_bounds(t@, p2 + 2);
    }
    match decode_varint(t, p2 + 2) {
        None => None,
        Some((_, q)) => Some(q),
    }
}

fn ping_end(t: &[u8]) -> (r: Option<usize>)
    ensures
        r == end_of(ping_body(t@)),
{
    reveal(ping_body);
    if t.len() < 7 {
        None
    } else {
        Some(7)
    }
}

fn login_start_end(t: &[u8]) -> (r: Option<usize>)
    ensures
        r == end_of(login_start_body(t@)),
{
    reveal(login_start_body);
    proof {
        lemma_string_at_bounds(t@, 0);
    }
    let p1 = match string_end(t, 0) {
        None => {
            return None;
        },
        Some(q) => q,
    };
    if t.len() - p1 < 15 {
        None
    } else {
        Some(p1 + 15)
    }
}

fn client_information_end(t: &[u8]) -> (r: Option<usize>)
    ensures
        r == end_of(client_information_body(t@)),
{
    reveal(client_information_body);
    proof {
        lemma_string_at_bounds(t@, 0);
    }
    let p1 = match string_end(t, 0) {
        None => {
            return None;
        },
        Some(q) => q,
    };
    if t.len() - p1 < 1 {
        return None;
    }
    proof {
        lemma_varint_at_bounds(t@, p1 + 1);
    }
    let p2 = match decode_varint(t, p1 + 1) {
        None => {
            return None;
        },
        Some((_, q)) => q,
    };
    if t.len() - p2 < 2 {
        return None;
    }
    proof {
        lemma_varint_at_bounds(t@, p2 + 2);
    }
    let p3 = match decode_varint(t, p2 + 2) {
        None => {
            return None;
        },
        Some((_, q)) => q,
    };
    if t.len() - p3 < 2 {
        return None;
    }
    proof {
        lemma_varint_at_bounds(t@, p3 + 2);
    }
    match decode_varint(t, p3 + 2) {
        None => None,
        Some((_, q)) => Some(q),
    }
}

/// Whether `s[from..to]` is `word`.
fn bytes_spell(s: &[u8], from: usize, to: usize, word: &str) -> (b: bool)
    requires
        from <= to <= s@.len(),
        valid_utf8(s@.subrange(from as int, to as int)),
    ensures
        b == (decode_utf8(s@.subrange(from as int, to as int)) == word@),
{
    let bytes = copy_bytes(s, from, to);
    let text = string_from_utf8(bytes).unwrap();
    text == String::from_str(word)
}

fn plugin_message_head_end(t: &[u8]) -> (r: Option<usize>)
    ensures
        r == end_of(plugin_message_head(t@)),
{
    reveal(plugin_message_head);
    let ghost t0 = t@.skip(0);
    assert(t0 =~= t@);
    proof {
        lemma_string_at_bounds(t@, 0);
        lemma_varint_at_bounds(t@, 0);
        lemma_varint_len_bounds(t0, 0);
    }
    let p1 = match string_end(t, 0) {
        None => {
            return None;
        },
        Some(q) => q,
    };
    let (_n, q) = decode_varint(t, 0).unwrap();
    assert(t@.subrange(q as int, p1 as int) =~= string_payload(t0));
    proof {
        lemma_string_at_bounds(t@, p1 as int);
    }
    if bytes_spell(t, q, p1, "minecraft:brand") {
        string_end(t, p1)
    } else {
        Some(p1)
    }
}

proof fn lemma_plugin_message_head_bounds(t: Seq<u8>)
    ensures
        plugin_message_head(t) matches Some((_, p)) ==> 0 < p <= t.len(),
{
    reveal(plugin_message_head);
    lemma_string_at_bounds(t, 0);
    if let Some((_, p1)) = string_at(t, 0) {
        lemma_string_at_bounds(t, p1);
    }
}

/// A copy of the bytes of `s` from `p` on.
fn suffix(s: &[u8], p: usize) -> (v: Vec<u8>)
    requires
        p <= s@.len(),
    ensures
        v@ == s@.skip(p as int),
{
    let v = copy_bytes(s, p, s.len());
    assert(v@ =~= s@.skip(p as int));
    v
}

/// Where the body of a packet with id `id` read in state `state` from `t`
/// ends, where it can be read.
fn body_end(state: ConnectionState, id: u8, t: &[u8]) -> (r: Option<usize>)
    ensures
        r == end_of(packet_body(state, id, t@)),
    decreases t@.len(),
{
    if state == ConnectionState::Handshake && id == 0 {
        handshake_end(t)
    } else if state == ConnectionState::Status && id == 1 {
        ping_end(t)
    } else if state == ConnectionState::Login && id == 0 {
        login_start_end(t)
    } else if state == ConnectionState::Configuration && id == 0 {
        client_information_end(t)
    } else if state == ConnectionState::Configuration && id == 2 {
        let _total = t.len();
        proof {
            lemma_plugin_message_head_bounds(t@);
        }
        match plugin_message_head_end(t) {
            None => None,
            Some(p) => {
                if 0 < p && p < t.len() {
                    let u = suffix(t, p);
                    if u.len() < 2 {
                        None
                    } else {
                        let w = suffix(u.as_slice(), 2);
                        proof {
                            lemma_packet_body_bounds(state, u@[1], w@);
                        }
                        match body_end(state, u[1], w.as_slice()) {
                            None => None,
                            Some(n) => Some(p + 2 + n),
                        }
                    }
                } else {
                    Some(p)
                }
            },
        }
    } else {
        Some(0)
    }
}

/// Whether the front of `data` holds a whole packet that can be read in
/// connection state `state`: every byte that its fields take is there and
/// its strings are UTF-8.
pub fn packet_is_readable(state: ConnectionState, data: &[u8]) -> (b: bool)
    ensures
        b == (packet_at(state, data@) is Some),
{
    if data.len() < 2 {
        return false;
    }
    let t = suffix(data, 2);
    body_end(state, data[1], t.as_slice()).is_some()
}

} // verus!
