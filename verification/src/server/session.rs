//! What a connection does with each packet it receives: the connection
//! state it moves to, what it learns of the player, and what it answers.

use vstd::prelude::*;
use vstd::std_specs::iter::IteratorSpec;

use crate::world::player::{ConnectionState, Player};
use super::network::{NetworkValue, string_encoding, varint_encoding, write_string, write_varint};
use super::{FieldView, fields, packet_at, read_packet, login_start_body, handshake_body, ping_body};

verus! {

/// What the connection sends after a packet.
#[derive(Debug)]
pub enum ClientAction {
    /// Nothing.
    Nothing,
    /// These bytes, as they are.
    Send(Vec<u8>),
    /// The status response: a JSON document of the server's status, framed
    /// by `status_response_packet`.
    SendStatus,
}

/// What the connection sends, as plain values.
pub enum ReplyView {
    Nothing,
    Send(Seq<u8>),
    SendStatus,
}

impl ClientAction {
    pub open spec fn reply(&self) -> ReplyView {
        match self {
            ClientAction::Nothing => ReplyView::Nothing,
            ClientAction::Send(bytes) => ReplyView::Send(bytes@),
            ClientAction::SendStatus => ReplyView::SendStatus,
        }
    }
}

/// The login success packet for a player of name `name` and UUID `uuid`:
/// its length as a VarInt, then id 2, the UUID, the name and an empty list
/// of properties.
pub open spec fn login_success(name: Seq<char>, uuid: Seq<u8>) -> Seq<u8> {
    let profile = seq![0x02u8] + uuid + string_encoding(name) + seq![0x00u8];
    varint_encoding((profile.len() as i32) as u32) + profile
}

/// The connection state after a packet with id `id` and fields `values`
/// read in state `state`: a handshake moves to login on intent 2 and to
/// status otherwise; login id 3 moves to configuration; a configuration
/// plugin message with more than two fields moves to play.
pub open spec fn state_after(state: ConnectionState, id: u8, values: Seq<FieldView>) -> ConnectionState {
    if state == ConnectionState::Handshake && id == 0 && values.len() > 3 && values[3] is Byte {
        if values[3]->Byte_0 == 2 {
            ConnectionState::Login
        } else {
            ConnectionState::Status
        }
    } else if state == ConnectionState::Login && id == 3 {
        ConnectionState::Configuration
    } else if state == ConnectionState::Configuration && id == 2 && values.len() > 2 {
        ConnectionState::Play
    } else {
        state
    }
}

/// The packet with id `id` and fields `values` read in state `state` is a
/// login start that names the player.
pub open spec fn is_login_start(state: ConnectionState, id: u8, values: Seq<FieldView>) -> bool {
    &&& state == ConnectionState::Login
    &&& id == 0
    &&& values.len() > 1
    &&& values[0] is Text
    &&& values[1] is Array
}

/// What the connection answers to a packet with id `id` and fields
/// `values` read in state `state`: the status response to a status
/// request; a ping its own timestamp back, as packet 1; a login start the
/// login success; a configuration plugin message with more than two fields
/// the finish of the configuration; nothing to anything else.
pub open spec fn reply_to(state: ConnectionState, id: u8, values: Seq<FieldView>) -> ReplyView {
    if state == ConnectionState::Status && id == 0 {
        ReplyView::SendStatus
    } else if state == ConnectionState::Status && id == 1 && values.len() > 0 && values[0] is Array {
        ReplyView::Send(seq![0x09u8, 0x01u8] + values[0]->Array_0)
    } else if is_login_start(state, id, values) {
        ReplyView::Send(login_success(values[0]->Text_0, values[1]->Array_0))
    } else if state == ConnectionState::Configuration && id == 2 && values.len() > 2 {
        ReplyView::Send(seq![0x03u8, 0x00u8])
    } else {
        ReplyView::Nothing
    }
}

/// The place of a connection state in the order the protocol goes
/// through them.
pub open spec fn stage(state: ConnectionState) -> int {
    match state {
        ConnectionState::Handshake => 0,
        ConnectionState::Status => 1,
        ConnectionState::Login => 2,
        ConnectionState::Configuration => 3,
        ConnectionState::Play => 4,
    }
}

/// A packet never moves a connection back: it stays, or moves from the
/// handshake to status or login, from login to configuration, or from
/// configuration to play. A status connection stays one, and so does a
/// connection in play.
pub proof fn lemma_connection_only_advances(state: ConnectionState, id: u8, values: Seq<FieldView>)
    ensures
        stage(state_after(state, id, values)) >= stage(state),
        state_after(state, id, values) != state ==> {
            ||| state == ConnectionState::Handshake && (state_after(state, id, values) == ConnectionState::Status
                || state_after(state, id, values) == ConnectionState::Login)
            ||| state == ConnectionState::Login && state_after(state, id, values) == ConnectionState::Configuration
            ||| state == ConnectionState::Configuration && state_after(state, id, values) == ConnectionState::Play
        },
        state == ConnectionState::Status ==> state_after(state, id, values) == ConnectionState::Status,
        state == ConnectionState::Play ==> state_after(state, id, values) == ConnectionState::Play,
{
}

/// A packet that moves the connection on is answered only where the
/// protocol calls for it: a handshake is never answered, and entering
/// configuration is not either.
pub proof fn lemma_moves_without_answer(state: ConnectionState, id: u8, values: Seq<FieldView>)
    ensures
        state == ConnectionState::Handshake ==> reply_to(state, id, values) == ReplyView::Nothing,
        state == ConnectionState::Login && id == 3 ==> reply_to(state, id, values) == ReplyView::Nothing,
{
}

/// The bytes of a boxed slice, as a vector.
fn bytes_of(bytes: &Box<[u8]>) -> (v: Vec<u8>)
    ensures
        v@ == bytes@,
{
    let mut v: Vec<u8> = Vec::new();
    let mut i: usize = 0;
    while i < bytes.len()
        invariant
            i <= bytes@.len(),
            v@ == bytes@.take(i as int),
        decreases bytes@.len() - i,
    {
        v.push(bytes[i]);
        i = i + 1;
        assert(v@ =~= bytes@.take(i as int));
    }
    assert(bytes@.take(i as int) =~= bytes@);
    v
}

/// Handles one packet that a client sent, from the front of `data`: reads
/// it in the player's connection state, moves the connection on, records
/// the name and UUID that a login start gives, and says what to answer.
pub fn handle_packet(player: &mut Player, data: &[u8]) -> (r: Result<ClientAction, &'static str>)
    requires
        packet_at(old(player).state, data@) is Some,
    ensures
        ({
            let (id, values, _n) = packet_at(old(player).state, data@).unwrap();
            &&& r matches Ok(action) && action.reply() == reply_to(old(player).state, id, values)
            &&& final(player).state == state_after(old(player).state, id, values)
            &&& final(player).entity_id == old(player).entity_id
            &&& is_login_start(old(player).state, id, values) ==> final(player).name@ == values[0]->Text_0
                && final(player).uuid@ == values[1]->Array_0
            &&& !is_login_start(old(player).state, id, values) ==> final(player).name == old(player).name
                && final(player).uuid == old(player).uuid
        }),
{
    broadcast use vstd::std_specs::slice::axiom_spec_slice_iter;
    let ghost start = *old(player);
    let mut buffer = data.iter();
    assert(buffer.remaining().unref() =~= data@);
    let (packet_id, packet) = read_packet(&mut buffer, player)?;
    let ghost values = fields(packet@);
    proof {
        reveal(handshake_body);
        reveal(ping_body);
        reveal(login_start_body);
    }
    let mut action = ClientAction::Nothing;
    if player.state == ConnectionState::Handshake && packet_id == 0 {
        assert(values[3] == packet@[3].field());
        if let NetworkValue::u8(intent) = &packet[3] {
            if *intent == 2 {
                player.state = ConnectionState::Login;
            } else {
                player.state = ConnectionState::Status;
            }
            return Ok(ClientAction::Nothing);
        }
    }
    if player.state == ConnectionState::Status {
        if packet_id == 0 {
            action = ClientAction::SendStatus;
        }
        if packet_id == 1 {
            assert(values[0] == packet@[0].field());
            if let NetworkValue::Array(timestamp) = &packet[0] {
                let mut client_packet: Vec<u8> = vec![0x09, 0x01];
                let mut stamp = bytes_of(timestamp);
                client_packet.append(&mut stamp);
                action = ClientAction::Send(client_packet);
            }
        }
    }
    if player.state == ConnectionState::Login {
        if packet_id == 0 {
            assert(values[0] == packet@[0].field());
            assert(values[1] == packet@[1].field());
            if let NetworkValue::String(name) = &packet[0] {
                if let NetworkValue::Array(uuid) = &packet[1] {
                    player.name = name.clone();
                    let mut id_bytes = [0u8; 16];
                    let mut i: usize = 0;
                    while i < 16
                        invariant
                            i <= 16,
                            uuid@.len() == 16,
                            forall|j: int| 0 <= j < i ==> id_bytes@[j] == uuid@[j],
                        decreases 16 - i,
                    {
                        id_bytes[i] = uuid[i];
                        i = i + 1;
                    }
                    assert(id_bytes@ =~= uuid@);
                    player.uuid = id_bytes;
                    let mut profile: Vec<u8> = vec![0x02];
                    let mut uuid_bytes = bytes_of(uuid);
                    profile.append(&mut uuid_bytes);
                    write_string(&mut profile, name.clone());
                    profile.push(0x00);
                    let mut client_packet: Vec<u8> = Vec::new();
                    write_varint(&mut client_packet, #[verifier::truncate] (profile.len() as i32));
                    client_packet.append(&mut profile);
                    assert(client_packet@ =~= login_success(values[0]->Text_0, values[1]->Array_0));
                    action = ClientAction::Send(client_packet);
                }
            }
        }
        if packet_id == 3 {
            player.state = ConnectionState::Configuration;
        }
    }
    if player.state == ConnectionState::Configuration {
        if packet_id == 2 {
            if packet.len() > 2 {
                action = ClientAction::Send(vec![3, 0]);
                player.state = ConnectionState::Play;
            }
        }
    }
    Ok(action)
}

/// Frames the status response: packet id 0 and the JSON document as a
/// string, preceded by their length as a VarInt.
pub fn status_response_packet(response: String) -> (packet: Vec<u8>)
    ensures
        packet@ == ({
            let body = varint_encoding(0) + string_encoding(response@);
            varint_encoding((body.len() as i32) as u32) + body
        }),
{
    let mut response_buffer: Vec<u8> = Vec::new();
    write_varint(&mut response_buffer, 0);
    write_string(&mut response_buffer, response);
    let mut client_packet: Vec<u8> = Vec::new();
    write_varint(&mut client_packet, #[verifier::truncate] (response_buffer.len() as i32));
    client_packet.append(&mut response_buffer);
    client_packet
}

} // verus!
