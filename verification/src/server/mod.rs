//! Reading the packets that a client sends, and the registry of players.

use vstd::prelude::*;
use vstd::std_specs::iter::IteratorSpec;
use vstd::utf8::*;
use vstd::string::StringExecFns;

use crate::world::player::{ConnectionState, Player};
use self::network::{
    NetworkValue, boxed_bytes, iter_len, lemma_varint_len_bounds, next_byte, read_string, read_varint,
    string_payload, string_read_len, string_readable, varint_read_len, varint_read_value,
};

pub mod network;
pub mod session;
pub mod validate;

verus! {

/// The players of the server, by entity id.
pub struct ServerState {
    pub players: std::collections::HashMap<u32, Player>,
    pub max_players: u32,
}

impl Default for ServerState {
    fn default() -> (state: Self)
        ensures
            state.players@ == Map::<u32, Player>::empty(),
            state.max_players == 0,
    {
        ServerState { players: std::collections::HashMap::new(), max_players: 0 }
    }
}

/// Calls `rand::random_range(low..high)`: a number at least `low` and
/// below `high` (the range is not empty, so the call does not panic).
/// Which number comes back is left to chance and not stated.
#[verifier::external_body]
fn random_in_range(low: u32, high: u32) -> (r: u32)
    requires
        low < high,
    ensures
        low <= r < high,
{
    rand::random_range(low..high)
}

impl ServerState {
    /// Adds the player of a new connection under `entity_id`: a fresh
    /// player with that entity id. A player already under that id is
    /// replaced; every other player stays.
    pub fn add_player(&mut self, entity_id: u32)
        ensures
            final(self).max_players == old(self).max_players,
            final(self).players@.dom() == old(self).players@.dom().insert(entity_id),
            forall|id: u32| id != entity_id && old(self).players@.contains_key(id)
                ==> #[trigger] final(self).players@[id] == old(self).players@[id],
            final(self).players@[entity_id].entity_id == entity_id,
            final(self).players@[entity_id].state == ConnectionState::Handshake,
            final(self).players@[entity_id].name@ == Seq::<char>::empty(),
            final(self).players@[entity_id].uuid@ == Seq::new(16, |i: int| 0u8),
    {
        broadcast use vstd::std_specs::hash::group_hash_axioms;
        let mut player = Player::default();
        player.entity_id = entity_id;
        self.players.insert(entity_id, player);
    }

    /// Admits the player of a new connection under a random entity id (at
    /// least 1, below `u32::MAX`), which it returns; see `add_player`.
    pub fn admit_player(&mut self) -> (entity_id: u32)
        ensures
            1 <= entity_id < u32::MAX,
            final(self).max_players == old(self).max_players,
            final(self).players@.dom() == old(self).players@.dom().insert(entity_id),
            forall|id: u32| id != entity_id && old(self).players@.contains_key(id)
                ==> #[trigger] final(self).players@[id] == old(self).players@[id],
            final(self).players@[entity_id].entity_id == entity_id,
            final(self).players@[entity_id].state == ConnectionState::Handshake,
            final(self).players@[entity_id].name@ == Seq::<char>::empty(),
            final(self).players@[entity_id].uuid@ == Seq::new(16, |i: int| 0u8),
    {
        let entity_id = random_in_range(1, u32::MAX);
        self.add_player(entity_id);
        entity_id
    }
}

/// What a decoded field holds, as plain values.
pub enum FieldView {
    Array(Seq<u8>),
    Bool(bool),
    Byte(u8),
    Short(u16),
    Text(Seq<char>),
}

impl NetworkValue {
    pub open spec fn field(&self) -> FieldView {
        match self {
            NetworkValue::Array(bytes) => FieldView::Array(bytes@),
            NetworkValue::bool(b) => FieldView::Bool(*b),
            NetworkValue::u8(b) => FieldView::Byte(*b),
            NetworkValue::u16(v) => FieldView::Short(*v),
            NetworkValue::String(text) => FieldView::Text(text@),
        }
    }
}

/// The fields of a decoded payload, as plain values.
pub open spec fn fields(values: Seq<NetworkValue>) -> Seq<FieldView> {
    values.map_values(|v: NetworkValue| v.field())
}

/// A VarInt read from `s` at `p`: its value and the position after it.
pub open spec fn varint_at(s: Seq<u8>, p: int) -> Option<(i32, int)> {
    let t = s.skip(p);
    if 0 <= p <= s.len() && varint_read_len(t) <= t.len() {
        Some((varint_read_value(t) as i32, p + varint_read_len(t)))
    } else {
        None
    }
}

/// A string read from `s` at `p`: its characters and the position after it.
pub open spec fn string_at(s: Seq<u8>, p: int) -> Option<(Seq<char>, int)> {
    let t = s.skip(p);
    if 0 <= p <= s.len() && string_readable(t) {
        Some((decode_utf8(string_payload(t)), p + string_read_len(t)))
    } else {
        None
    }
}

/// `k` raw bytes read from `s` at `p`.
pub open spec fn bytes_at(s: Seq<u8>, p: int, k: int) -> Option<Seq<u8>> {
    if 0 <= p && 0 <= k && p + k <= s.len() {
        Some(s.subrange(p, p + k))
    } else {
        None
    }
}

/// The body of a handshake: protocol version, server address, server port
/// (two bytes, big-endian) and intent; the version is kept to 16 bits and
/// the intent to 8.
#[verifier::opaque]
pub open spec fn handshake_body(t: Seq<u8>) -> Option<(Seq<FieldView>, int)> {
    match varint_at(t, 0) {
        None => None,
        Some((version, p1)) => match string_at(t, p1) {
            None => None,
            Some((address, p2)) => match bytes_at(t, p2, 2) {
                None => None,
                Some(port) => match varint_at(t, p2 + 2) {
                    None => None,
                    Some((intent, p3)) => Some((
                        seq![
                            FieldView::Short(version as u16),
                            FieldView::Text(address),
                            FieldView::Short((port[0] as u16 * 256 + port[1] as u16) as u16),
                            FieldView::Byte(intent as u8),
                        ],
                        p3,
                    )),
                },
            },
        },
    }
}

/// The body of a status ping: seven bytes of timestamp, kept in an
/// eight-byte array whose last byte stays zero.
#[verifier::opaque]
pub open spec fn ping_body(t: Seq<u8>) -> Option<(Seq<FieldView>, int)> {
    match bytes_at(t, 0, 7) {
        None => None,
        Some(stamp) => Some((seq![FieldView::Array(stamp.push(0u8))], 7)),
    }
}

/// The body of a login start: the player's name, then fifteen bytes of
/// UUID kept in a sixteen-byte array whose last byte stays zero.
#[verifier::opaque]
pub open spec fn login_start_body(t: Seq<u8>) -> Option<(Seq<FieldView>, int)> {
    match string_at(t, 0) {
        None => None,
        Some((name, p1)) => match bytes_at(t, p1, 15) {
            None => None,
            Some(uuid) => Some((seq![FieldView::Text(name), FieldView::Array(uuid.push(0u8))], p1 + 15)),
        },
    }
}

/// The body of the client information packet: locale, view distance, chat
/// mode, chat colours, skin parts, main hand, text filtering, server
/// listings and particle status; the VarInts are kept to 8 bits and a flag
/// byte is true exactly when it is 1.
#[verifier::opaque]
pub open spec fn client_information_body(t: Seq<u8>) -> Option<(Seq<FieldView>, int)> {
    match string_at(t, 0) {
        None => None,
        Some((locale, p1)) => match bytes_at(t, p1, 1) {
            None => None,
            Some(view) => match varint_at(t, p1 + 1) {
                None => None,
                Some((chat_mode, p2)) => match bytes_at(t, p2, 2) {
                    None => None,
                    Some(colours_skin) => match varint_at(t, p2 + 2) {
                        None => None,
                        Some((main_hand, p3)) => match bytes_at(t, p3, 2) {
                            None => None,
                            Some(flags) => match varint_at(t, p3 + 2) {
                                None => None,
                                Some((particles, p4)) => Some((
                                    seq![
                                        FieldView::Text(locale),
                                        FieldView::Byte(view[0]),
                                        FieldView::Byte(chat_mode as u8),
                                        FieldView::Bool(colours_skin[0] == 1),
                                        FieldView::Byte(colours_skin[1]),
                                        FieldView::Byte(main_hand as u8),
                                        FieldView::Bool(flags[0] == 1),
                                        FieldView::Bool(flags[1] == 1),
                                        FieldView::Byte(particles as u8),
                                    ],
                                    p4,
                                )),
                            },
                        },
                    },
                },
            },
        },
    }
}

/// The head of a plugin message: its channel, then, on the channel
/// `minecraft:brand`, the brand string.
#[verifier::opaque]
pub open spec fn plugin_message_head(t: Seq<u8>) -> Option<(Seq<FieldView>, int)> {
    match string_at(t, 0) {
        None => None,
        Some((channel, p1)) => if channel == "minecraft:brand"@ {
            match string_at(t, p1) {
                None => None,
                Some((brand, p2)) => Some((seq![FieldView::Text(channel), FieldView::Text(brand)], p2)),
            }
        } else {
            Some((seq![FieldView::Text(channel)], p1))
        },
    }
}

/// The body of a packet with id `id` read in connection state `state` from
/// `t`, the bytes after the packet's length and id: the fields and the
/// position after them; `None` where the bytes run out or a string is not
/// UTF-8. A plugin message that leaves bytes behind is followed by a
/// further packet, read in the same state, whose fields are added.
pub open spec fn packet_body(state: ConnectionState, id: u8, t: Seq<u8>) -> Option<(Seq<FieldView>, int)>
    decreases t.len(),
{
    if state == ConnectionState::Handshake && id == 0 {
        handshake_body(t)
    } else if state == ConnectionState::Status && id == 1 {
        ping_body(t)
    } else if state == ConnectionState::Login && id == 0 {
        login_start_body(t)
    } else if state == ConnectionState::Configuration && id == 0 {
        client_information_body(t)
    } else if state == ConnectionState::Configuration && id == 2 {
        match plugin_message_head(t) {
            None => None,
            Some((head, p)) => if 0 < p < t.len() {
                let u = t.skip(p);
                if 2 <= u.len() {
                    match packet_body(state, u[1], u.skip(2)) {
                        None => None,
                        Some((more, n)) => Some((head + more, p + 2 + n)),
                    }
                } else {
                    None
                }
            } else {
                Some((head, p))
            },
        }
    } else {
        Some((Seq::empty(), 0))
    }
}

/// A packet read in connection state `state` from the front of `s`: a
/// length byte (not checked), an id byte, then the body; the id, the fields
/// and the number of bytes taken.
pub open spec fn packet_at(state: ConnectionState, s: Seq<u8>) -> Option<(u8, Seq<FieldView>, int)> {
    if s.len() < 2 {
        None
    } else {
        match packet_body(state, s[1], s.skip(2)) {
            None => None,
            Some((values, n)) => Some((s[1], values, n + 2)),
        }
    }
}

fn read_handshake(buffer: &mut std::slice::Iter<'_, u8>) -> (r: Result<Vec<NetworkValue>, &'static str>)
    requires
        handshake_body((*old(buffer)).remaining().unref()) is Some,
    ensures
        r matches Ok(values) && fields(values@) == handshake_body((*old(buffer)).remaining().unref()).unwrap().0,
        (*final(buffer)).remaining().unref() == (*old(buffer)).remaining().unref().skip(
            handshake_body((*old(buffer)).remaining().unref()).unwrap().1,
        ),
{
    let ghost t = (*old(buffer)).remaining().unref();
    reveal(handshake_body);
    assert(t.skip(0) =~= t);
    let protocol_version = read_varint(buffer)?;
    let ghost p1 = varint_at(t, 0).unwrap().1;
    let server_address = read_string(buffer)?;
    let ghost p2 = string_at(t, p1).unwrap().1;
    assert((*buffer).remaining().unref() =~= t.skip(p2));
    let high = next_byte(buffer);
    let low = next_byte(buffer);
    let server_port: u16 = (high as u16) * 256 + (low as u16);
    assert((*buffer).remaining().unref() =~= t.skip(p2 + 2));
    let intent = read_varint(buffer)?;
    let ghost p3 = varint_at(t, p2 + 2).unwrap().1;
    assert((*buffer).remaining().unref() =~= t.skip(p3));
    let mut payload: Vec<NetworkValue> = Vec::new();
    payload.push(NetworkValue::u16(#[verifier::truncate] (protocol_version as u16)));
    payload.push(NetworkValue::String(server_address));
    payload.push(NetworkValue::u16(server_port));
    payload.push(NetworkValue::u8(#[verifier::truncate] (intent as u8)));
    proof {
        assert(fields(payload@) =~= handshake_body(t).unwrap().0);
    }
    Ok(payload)
}

/// Reads `count` raw bytes into an array of `size` bytes whose other bytes
/// stay zero.
fn read_into_array(buffer: &mut std::slice::Iter<'_, u8>, count: usize, size: usize) -> (r: Box<[u8]>)
    requires
        count <= size,
        count <= (*old(buffer)).remaining().unref().len(),
    ensures
        r@ == (*old(buffer)).remaining().unref().take(count as int) + Seq::new((size - count) as nat, |i: int| 0u8),
        (*final(buffer)).remaining().unref() == (*old(buffer)).remaining().unref().skip(count as int),
{
    let ghost t = (*old(buffer)).remaining().unref();
    let mut array: Vec<u8> = vec![0u8; size];
    let mut i: usize = 0;
    while i < count
        invariant
            i <= count <= size,
            count <= t.len(),
            array@.len() == size,
            forall|j: int| 0 <= j < i ==> array@[j] == t[j],
            forall|j: int| i <= j < size ==> array@[j] == 0u8,
            (*buffer).remaining().unref() == t.skip(i as int),
        decreases count - i,
    {
        let byte = next_byte(buffer);
        array.set(i, byte);
        i = i + 1;
        proof {
            assert((*buffer).remaining().unref() =~= t.skip(i as int));
        }
    }
    proof {
        assert(array@ =~= t.take(count as int) + Seq::new((size - count) as nat, |i: int| 0u8));
    }
    boxed_bytes(array)
}

fn read_ping(buffer: &mut std::slice::Iter<'_, u8>) -> (r: Result<Vec<NetworkValue>, &'static str>)
    requires
        ping_body((*old(buffer)).remaining().unref()) is Some,
    ensures
        r matches Ok(values) && fields(values@) == ping_body((*old(buffer)).remaining().unref()).unwrap().0,
        (*final(buffer)).remaining().unref() == (*old(buffer)).remaining().unref().skip(
            ping_body((*old(buffer)).remaining().unref()).unwrap().1,
        ),
{
    let ghost t = (*old(buffer)).remaining().unref();
    reveal(ping_body);
    let timestamp = read_into_array(buffer, 7, 8);
    let mut payload: Vec<NetworkValue> = Vec::new();
    payload.push(NetworkValue::Array(timestamp));
    proof {
        assert(t.take(7) + Seq::new(1, |i: int| 0u8) =~= t.subrange(0, 7).push(0u8));
        assert(fields(payload@) =~= ping_body(t).unwrap().0);
    }
    Ok(payload)
}

fn read_login_start(buffer: &mut std::slice::Iter<'_, u8>) -> (r: Result<Vec<NetworkValue>, &'static str>)
    requires
        login_start_body((*old(buffer)).remaining().unref()) is Some,
    ensures
        r matches Ok(values) && fields(values@) == login_start_body((*old(buffer)).remaining().unref()).unwrap().0,
        (*final(buffer)).remaining().unref() == (*old(buffer)).remaining().unref().skip(
            login_start_body((*old(buffer)).remaining().unref()).unwrap().1,
        ),
{
    let ghost t = (*old(buffer)).remaining().unref();
    reveal(login_start_body);
    assert(t.skip(0) =~= t);
    let name = read_string(buffer)?;
    let ghost p1 = string_at(t, 0).unwrap().1;
    let uuid = read_into_array(buffer, 15, 16);
    assert((*buffer).remaining().unref() =~= t.skip(p1 + 15));
    let mut payload: Vec<NetworkValue> = Vec::new();
    payload.push(NetworkValue::String(name));
    payload.push(NetworkValue::Array(uuid));
    proof {
        assert(t.skip(p1).take(15) + Seq::new(1, |i: int| 0u8) =~= t.subrange(p1, p1 + 15).push(0u8));
        assert(fields(payload@) =~= login_start_body(t).unwrap().0);
    }
    Ok(payload)
}

#[verifier::rlimit(50)]
fn read_client_information(buffer: &mut std::slice::Iter<'_, u8>) -> (r: Result<Vec<NetworkValue>, &'static str>)
    requires
        client_information_body((*old(buffer)).remaining().unref()) is Some,
    ensures
        r matches Ok(values) && fields(values@) == client_information_body((*old(buffer)).remaining().unref()).unwrap().0,
        (*final(buffer)).remaining().unref() == (*old(buffer)).remaining().unref().skip(
            client_information_body((*old(buffer)).remaining().unref()).unwrap().1,
        ),
{
    let ghost t = (*old(buffer)).remaining().unref();
    reveal(client_information_body);
    assert(t.skip(0) =~= t);
    let locale = read_string(buffer)?;
    let ghost p1 = string_at(t, 0).unwrap().1;
    let view_distance = next_byte(buffer);
    assert((*buffer).remaining().unref() =~= t.skip(p1 + 1));
    let chat_mode = read_varint(buffer)?;
    let ghost p2 = varint_at(t, p1 + 1).unwrap().1;
    let chat_colors = next_byte(buffer) == 0x01;
    let displayed_skin_parts = next_byte(buffer);
    assert((*buffer).remaining().unref() =~= t.skip(p2 + 2));
    let main_hand = read_varint(buffer)?;
    let ghost p3 = varint_at(t, p2 + 2).unwrap().1;
    let enable_text_filtering = next_byte(buffer) == 0x01;
    let allow_server_listings = next_byte(buffer) == 0x01;
    assert((*buffer).remaining().unref() =~= t.skip(p3 + 2));
    let particle_status = read_varint(buffer)?;
    let ghost p4 = varint_at(t, p3 + 2).unwrap().1;
    assert((*buffer).remaining().unref() =~= t.skip(p4));
    let mut payload: Vec<NetworkValue> = Vec::new();
    payload.push(NetworkValue::String(locale));
    payload.push(NetworkValue::u8(view_distance));
    payload.push(NetworkValue::u8(#[verifier::truncate] (chat_mode as u8)));
    payload.push(NetworkValue::bool(chat_colors));
    payload.push(NetworkValue::u8(displayed_skin_parts));
    payload.push(NetworkValue::u8(#[verifier::truncate] (main_hand as u8)));
    payload.push(NetworkValue::bool(enable_text_filtering));
    payload.push(NetworkValue::bool(allow_server_listings));
    payload.push(NetworkValue::u8(#[verifier::truncate] (particle_status as u8)));
    proof {
        assert(fields(payload@) =~= client_information_body(t).unwrap().0);
    }
    Ok(payload)
}

fn read_plugin_message_head(buffer: &mut std::slice::Iter<'_, u8>) -> (r: Result<Vec<NetworkValue>, &'static str>)
    requires
        plugin_message_head((*old(buffer)).remaining().unref()) is Some,
    ensures
        r matches Ok(values) && fields(values@) == plugin_message_head((*old(buffer)).remaining().unref()).unwrap().0,
        (*final(buffer)).remaining().unref() == (*old(buffer)).remaining().unref().skip(
            plugin_message_head((*old(buffer)).remaining().unref()).unwrap().1,
        ),
{
    let ghost t = (*old(buffer)).remaining().unref();
    reveal(plugin_message_head);
    assert(t.skip(0) =~= t);
    let identifier = read_string(buffer)?;
    let ghost p1 = string_at(t, 0).unwrap().1;
    let mut payload: Vec<NetworkValue> = Vec::new();
    let is_brand = identifier == String::from_str("minecraft:brand");
    payload.push(NetworkValue::String(identifier.clone()));
    if is_brand {
        let brand = read_string(buffer)?;
        let ghost p2 = string_at(t, p1).unwrap().1;
        assert((*buffer).remaining().unref() =~= t.skip(p2));
        payload.push(NetworkValue::String(brand));
    }
    proof {
        assert(fields(payload@) =~= plugin_message_head(t).unwrap().0);
    }
    Ok(payload)
}

/// Reads the body of a packet with id `id` in connection state `state`.
fn read_body(
    buffer: &mut std::slice::Iter<'_, u8>,
    state: ConnectionState,
    id: u8,
    Ghost(size): Ghost<nat>,
) -> (r: Result<Vec<NetworkValue>, &'static str>)
    requires
        size == (*old(buffer)).remaining().len(),
        packet_body(state, id, (*old(buffer)).remaining().unref()) is Some,
    ensures
        r matches Ok(values) && fields(values@) == packet_body(state, id, (*old(buffer)).remaining().unref()).unwrap().0,
        (*final(buffer)).remaining().unref() == (*old(buffer)).remaining().unref().skip(
            packet_body(state, id, (*old(buffer)).remaining().unref()).unwrap().1,
        ),
    decreases size,
{
    let ghost t = (*old(buffer)).remaining().unref();
    if state == ConnectionState::Handshake && id == 0 {
        read_handshake(buffer)
    } else if state == ConnectionState::Status && id == 1 {
        read_ping(buffer)
    } else if state == ConnectionState::Login && id == 0 {
        read_login_start(buffer)
    } else if state == ConnectionState::Configuration && id == 0 {
        read_client_information(buffer)
    } else if state == ConnectionState::Configuration && id == 2 {
        let mut payload = read_plugin_message_head(buffer)?;
        let ghost p = plugin_message_head(t).unwrap().1;
        proof {
            lemma_string_at_bounds(t, 0);
            reveal(plugin_message_head);
        }
        if iter_len(buffer) > 0 {
            let _packet_length = next_byte(buffer);
            let packet_id = next_byte(buffer);
            let ghost u = t.skip(p);
            assert((*buffer).remaining().unref() =~= u.skip(2));
            let pending = iter_len(buffer);
            let mut more = read_body(buffer, state, packet_id, Ghost(pending as nat))?;
            proof {
                lemma_packet_body_bounds(state, packet_id, u.skip(2));
            }
            assert((*buffer).remaining().unref() =~= t.skip(packet_body(state, id, t).unwrap().1));
            let ghost head = fields(payload@);
            let ghost more_before = more@;
            payload.append(&mut more);
            proof {
                assert(fields(payload@) =~= head + fields(more_before));
            }
        }
        Ok(payload)
    } else {
        assert(t.skip(0) =~= t);
        Ok(Vec::new())
    }
}

/// A VarInt read at `p` ends after `p`, within the bytes.
pub proof fn lemma_varint_at_bounds(s: Seq<u8>, p: int)
    ensures
        varint_at(s, p) matches Some((_, q)) ==> p < q <= s.len(),
{
    lemma_varint_len_bounds(s.skip(p), 0);
}

/// A string read at `p` ends after `p`, within the bytes.
pub proof fn lemma_string_at_bounds(s: Seq<u8>, p: int)
    ensures
        string_at(s, p) matches Some((_, q)) ==> p < q <= s.len(),
{
    lemma_varint_len_bounds(s.skip(p), 0);
}

/// Every packet body ends within the bytes it is read from.
pub proof fn lemma_packet_body_bounds(state: ConnectionState, id: u8, t: Seq<u8>)
    ensures
        packet_body(state, id, t) matches Some((_, n)) ==> 0 <= n <= t.len(),
    decreases t.len(),
{
    reveal(handshake_body);
    reveal(ping_body);
    reveal(login_start_body);
    reveal(client_information_body);
    reveal(plugin_message_head);
    if state == ConnectionState::Handshake && id == 0 {
        lemma_varint_at_bounds(t, 0);
        if let Some((_, p1)) = varint_at(t, 0) {
            lemma_string_at_bounds(t, p1);
            if let Some((_, p2)) = string_at(t, p1) {
                lemma_varint_at_bounds(t, p2 + 2);
            }
        }
    } else if state == ConnectionState::Login && id == 0 {
        lemma_string_at_bounds(t, 0);
    } else if state == ConnectionState::Configuration && id == 0 {
        lemma_string_at_bounds(t, 0);
        if let Some((_, p1)) = string_at(t, 0) {
            lemma_varint_at_bounds(t, p1 + 1);
            if let Some((_, p2)) = varint_at(t, p1 + 1) {
                lemma_varint_at_bounds(t, p2 + 2);
                if let Some((_, p3)) = varint_at(t, p2 + 2) {
                    lemma_varint_at_bounds(t, p3 + 2);
                }
            }
        }
    } else if state == ConnectionState::Configuration && id == 2 {
        lemma_string_at_bounds(t, 0);
        if let Some((_, p1)) = string_at(t, 0) {
            lemma_string_at_bounds(t, p1);
        }
        if let Some((_, p)) = plugin_message_head(t) {
            if 0 < p < t.len() {
                let u = t.skip(p);
                if 2 <= u.len() {
                    lemma_packet_body_bounds(state, u[1], u.skip(2));
                }
            }
        }
    }
}

/// A plugin message read in configuration gives its own fields first: the
/// channel, the string that the bytes after the id hold; on the channel
/// `minecraft:brand`, then the brand, the string after it. A further
/// packet in the same bytes adds its fields after these, and only then.
pub proof fn lemma_plugin_message_fields_first(s: Seq<u8>)
    requires
        packet_at(ConnectionState::Configuration, s) is Some,
        s[1] == 2,
    ensures
        ({
            let values = packet_at(ConnectionState::Configuration, s).unwrap().1;
            let t = s.skip(2);
            let channel = decode_utf8(string_payload(t));
            let after = t.skip(string_read_len(t) as int);
            let brand = channel == "minecraft:brand"@;
            let head_len: int = if brand { 2 } else { 1 };
            let end: int = if brand {
                (string_read_len(t) + string_read_len(after)) as int
            } else {
                string_read_len(t) as int
            };
            &&& string_readable(t)
            &&& values.len() >= head_len
            &&& values[0] == FieldView::Text(channel)
            &&& brand ==> string_readable(after) && values[1] == FieldView::Text(
                decode_utf8(string_payload(after)),
            )
            &&& end < t.len() ==> packet_at(ConnectionState::Configuration, t.skip(end)) is Some
                && values.skip(head_len) == packet_at(ConnectionState::Configuration, t.skip(end)).unwrap().1
            &&& end >= t.len() ==> values.len() == head_len
        }),
{
    let t = s.skip(2);
    lemma_plugin_message_head_fields(t);
    lemma_varint_len_bounds(t, 0);
    let values = packet_at(ConnectionState::Configuration, s).unwrap().1;
    assert(packet_body(ConnectionState::Configuration, 2, t) is Some);
    let (head, p) = plugin_message_head(t).unwrap();
    if 0 < p < t.len() {
        let u = t.skip(p);
        let (more, n) = packet_body(ConnectionState::Configuration, u[1], u.skip(2)).unwrap();
        assert(values == head + more);
        assert(values.skip(head.len() as int) =~= more);
        assert(packet_at(ConnectionState::Configuration, u) == Some((u[1], more, n + 2)));
    } else {
        assert(values == head);
    }
}

proof fn lemma_plugin_message_head_fields(t: Seq<u8>)
    ensures
        plugin_message_head(t) matches Some((head, p)) ==> ({
            let channel = decode_utf8(string_payload(t));
            let after = t.skip(string_read_len(t) as int);
            let brand = channel == "minecraft:brand"@;
            &&& string_readable(t)
            &&& head.len() == (if brand { 2int } else { 1int })
            &&& head[0] == FieldView::Text(channel)
            &&& brand ==> string_readable(after) && head[1] == FieldView::Text(decode_utf8(string_payload(after)))
            &&& p == (if brand {
                (string_read_len(t) + string_read_len(after)) as int
            } else {
                string_read_len(t) as int
            })
        }),
{
    reveal(plugin_message_head);
    assert(t.skip(0) =~= t);
}

/// The handshake fields are tied to the bytes after the id, in order: the
/// protocol version VarInt cut to 16 bits; the server address string; the
/// port, the two bytes after the address, high byte first; the intent
/// VarInt cut to 8 bits.
pub proof fn lemma_handshake_fields(s: Seq<u8>)
    requires
        packet_at(ConnectionState::Handshake, s) is Some,
        s[1] == 0,
    ensures
        ({
            let values = packet_at(ConnectionState::Handshake, s).unwrap().1;
            let t = s.skip(2);
            let p1 = varint_read_len(t) as int;
            let address = t.skip(p1);
            let p2 = p1 + string_read_len(address);
            &&& p2 + 2 <= t.len()
            &&& values.len() == 4
            &&& values[0] == FieldView::Short((varint_read_value(t) as i32) as u16)
            &&& values[1] == FieldView::Text(decode_utf8(string_payload(address)))
            &&& values[2] == FieldView::Short((t[p2] as u16 * 256 + t[p2 + 1] as u16) as u16)
            &&& values[3] == FieldView::Byte((varint_read_value(t.skip(p2 + 2)) as i32) as u8)
        }),
{
    reveal(handshake_body);
    let t = s.skip(2);
    assert(t.skip(0) =~= t);
    lemma_varint_at_bounds(t, 0);
    let p1 = varint_read_len(t) as int;
    lemma_string_at_bounds(t, p1);
    let p2 = p1 + string_read_len(t.skip(p1));
    lemma_varint_at_bounds(t, p2 + 2);
    assert(t.subrange(p2, p2 + 2)[0] == t[p2]);
    assert(t.subrange(p2, p2 + 2)[1] == t[p2 + 1]);
}

/// A status ping gives one field: the seven bytes after the id, then a
/// zero byte.
pub proof fn lemma_ping_fields(s: Seq<u8>)
    requires
        packet_at(ConnectionState::Status, s) is Some,
        s[1] == 1,
    ensures
        packet_at(ConnectionState::Status, s).unwrap().1 == seq![FieldView::Array(s.subrange(2, 9).push(0u8))],
{
    reveal(ping_body);
    assert(s.skip(2).subrange(0, 7) =~= s.subrange(2, 9));
}

/// A login start gives the name, the string after the id, then the fifteen
/// bytes after the name followed by a zero byte.
pub proof fn lemma_login_start_fields(s: Seq<u8>)
    requires
        packet_at(ConnectionState::Login, s) is Some,
        s[1] == 0,
    ensures
        ({
            let t = s.skip(2);
            let p1 = string_read_len(t) as int;
            packet_at(ConnectionState::Login, s).unwrap().1 == seq![
                FieldView::Text(decode_utf8(string_payload(t))),
                FieldView::Array(t.subrange(p1, p1 + 15).push(0u8)),
            ]
        }),
{
    reveal(login_start_body);
    assert(s.skip(2).skip(0) =~= s.skip(2));
}

/// The client information fields are tied to the bytes after the id, in
/// order: the locale string; the view-distance byte; the chat-mode VarInt
/// cut to 8 bits; the chat-colours flag, true exactly when the byte right
/// after the chat mode is 1; the skin-parts byte after it; the main-hand
/// VarInt cut to 8 bits; the text-filtering flag and the server-listings
/// flag, the two bytes after the main hand, each true exactly when it is
/// 1; the particle-status VarInt cut to 8 bits.
pub proof fn lemma_client_information_fields(s: Seq<u8>)
    requires
        packet_at(ConnectionState::Configuration, s) is Some,
        s[1] == 0,
    ensures
        ({
            let values = packet_at(ConnectionState::Configuration, s).unwrap().1;
            let t = s.skip(2);
            let p1 = string_read_len(t) as int;
            let chat_mode = t.skip(p1 + 1);
            let p2 = p1 + 1 + varint_read_len(chat_mode);
            let main_hand = t.skip(p2 + 2);
            let p3 = p2 + 2 + varint_read_len(main_hand);
            let particles = t.skip(p3 + 2);
            &&& p3 + 2 <= t.len()
            &&& values.len() == 9
            &&& values[0] == FieldView::Text(decode_utf8(string_payload(t)))
            &&& values[1] == FieldView::Byte(t[p1])
            &&& values[2] == FieldView::Byte((varint_read_value(chat_mode) as i32) as u8)
            &&& values[3] == FieldView::Bool(t[p2] == 1)
            &&& values[4] == FieldView::Byte(t[p2 + 1])
            &&& values[5] == FieldView::Byte((varint_read_value(main_hand) as i32) as u8)
            &&& values[6] == FieldView::Bool(t[p3] == 1)
            &&& values[7] == FieldView::Bool(t[p3 + 1] == 1)
            &&& values[8] == FieldView::Byte((varint_read_value(particles) as i32) as u8)
        }),
{
    reveal(client_information_body);
    let t = s.skip(2);
    assert(t.skip(0) =~= t);
    lemma_string_at_bounds(t, 0);
    let p1 = string_read_len(t) as int;
    lemma_varint_at_bounds(t, p1 + 1);
    let p2 = p1 + 1 + varint_read_len(t.skip(p1 + 1));
    lemma_varint_at_bounds(t, p2 + 2);
    let p3 = p2 + 2 + varint_read_len(t.skip(p2 + 2));
    lemma_varint_at_bounds(t, p3 + 2);
    assert(t.subrange(p1, p1 + 1)[0] == t[p1]);
    assert(t.subrange(p2, p2 + 2)[0] == t[p2]);
    assert(t.subrange(p2, p2 + 2)[1] == t[p2 + 1]);
    assert(t.subrange(p3, p3 + 2)[0] == t[p3]);
    assert(t.subrange(p3, p3 + 2)[1] == t[p3 + 1]);
}

/// Reads one packet from the buffer: a length byte (not checked), an id
/// byte, then the fields that the player's connection state and the id
/// call for. The player is left as it was.
pub fn read_packet(buffer: &mut std::slice::Iter<'_, u8>, player: &mut Player) -> (r: Result<(u8, Vec<NetworkValue>), &'static str>)
    requires
        packet_at(old(player).state, (*old(buffer)).remaining().unref()) is Some,
    ensures
        r matches Ok((id, values)) && id == packet_at(old(player).state, (*old(buffer)).remaining().unref()).unwrap().0
            && fields(values@) == packet_at(old(player).state, (*old(buffer)).remaining().unref()).unwrap().1,
        (*final(buffer)).remaining().unref() == (*old(buffer)).remaining().unref().skip(
            packet_at(old(player).state, (*old(buffer)).remaining().unref()).unwrap().2,
        ),
        *final(player) == *old(player),
{
    let ghost t = (*old(buffer)).remaining().unref();
    let _packet_length = next_byte(buffer);
    let packet_id = next_byte(buffer);
    assert((*buffer).remaining().unref() =~= t.skip(2));
    let pending = iter_len(buffer);
    let payload = read_body(buffer, player.state, packet_id, Ghost(pending as nat))?;
    proof {
        lemma_packet_body_bounds(player.state, packet_id, t.skip(2));
    }
    assert((*buffer).remaining().unref() =~= t.skip(packet_at(player.state, t).unwrap().2));
    Ok((packet_id, payload))
}

} // verus!
