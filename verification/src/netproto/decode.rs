//! Reading messages.
use super::{front, parse};
use crate::endian;
use crate::messages;
use crate::messages::{
    AuthMessage, ClientError, ClientId, ClientMessage, ClientPollReply, ClientQuery, ClientReply,
    DelayedError, FullyQualifiedMessage, Sequence, ServerId, ServerMessage,
};
use byteorder::{LittleEndian, ReadBytesExt};
use std::collections::HashMap;
use vstd::prelude::*;
use vstd::utf8;

verus! {

/// Why bytes could not be read as a message.
#[derive(Clone, Copy, PartialEq, Eq, Structural, Debug)]
pub enum DecodeError {
    /// The bytes end within the message.
    UnexpectedEof,
    /// A number starts with a byte that announces none.
    InvalidMarker,
    /// An identifier does not have sixteen bytes.
    InvalidUuid,
    /// An array does not have as many bytes as it holds.
    InvalidLength,
    /// No variant of the message has that tag.
    InvalidTag,
    /// No error has that tag.
    InvalidErrorTag,
}

/// The error of `uuid`'s parsers.
#[verifier::external_type_specification]
#[verifier::external_body]
pub struct ExUuidError(uuid::Error);

/// `byteorder`'s `ReadBytesExt::read_u8` on a slice: the first byte is taken
/// off, and it is an error if there is none. How much of the slice is left
/// after an error is not said.
#[verifier::external_body]
fn read_u8(rd: &mut &[u8]) -> (r: std::io::Result<u8>)
    ensures
        r is Ok <==> old(rd)@.len() >= 1,
        r matches Ok(n) ==> n == old(rd)@[0] && final(rd)@ == old(rd)@.skip(1),
{
    rd.read_u8()
}

/// `byteorder`'s `ReadBytesExt::read_u16` on a slice, in little-endian order:
/// two bytes are taken off, which hold the number with the least significant
/// byte first, and it is an error if there are fewer. How much of the slice is
/// left after an error is not said.
#[verifier::external_body]
fn read_u16(rd: &mut &[u8]) -> (r: std::io::Result<u16>)
    ensures
        r is Ok <==> old(rd)@.len() >= 2,
        r matches Ok(n) ==> n == endian::le_value(old(rd)@.take(2)) && final(rd)@ == old(rd)@.skip(
            2,
        ),
{
    rd.read_u16::<LittleEndian>()
}

/// `byteorder`'s `ReadBytesExt::read_u32` on a slice, in little-endian order:
/// four bytes are taken off, which hold the number with the least significant
/// byte first, and it is an error if there are fewer. How much of the slice is
/// left after an error is not said.
#[verifier::external_body]
fn read_u32(rd: &mut &[u8]) -> (r: std::io::Result<u32>)
    ensures
        r is Ok <==> old(rd)@.len() >= 4,
        r matches Ok(n) ==> n == endian::le_value(old(rd)@.take(4)) && final(rd)@ == old(rd)@.skip(
            4,
        ),
{
    rd.read_u32::<LittleEndian>()
}

/// `byteorder`'s `ReadBytesExt::read_u64` on a slice, in little-endian order:
/// eight bytes are taken off, which hold the number with the least significant
/// byte first, and it is an error if there are fewer. How much of the slice is
/// left after an error is not said.
#[verifier::external_body]
fn read_u64(rd: &mut &[u8]) -> (r: std::io::Result<u64>)
    ensures
        r is Ok <==> old(rd)@.len() >= 8,
        r matches Ok(n) ==> n == endian::le_value(old(rd)@.take(8)) && final(rd)@ == old(rd)@.skip(
            8,
        ),
{
    rd.read_u64::<LittleEndian>()
}

/// `byteorder`'s `ReadBytesExt::read_u128` on a slice, in little-endian order:
/// sixteen bytes are taken off, which hold the number with the least
/// significant byte first, and it is an error if there are fewer. How much of
/// the slice is left after an error is not said.
#[verifier::external_body]
fn read_u128(rd: &mut &[u8]) -> (r: std::io::Result<u128>)
    ensures
        r is Ok <==> old(rd)@.len() >= 16,
        r matches Ok(n) ==> n == endian::le_value(old(rd)@.take(16)) && final(rd)@ == old(
            rd,
        )@.skip(16),
{
    rd.read_u128::<LittleEndian>()
}

/// `uuid`'s `Uuid::from_slice`, as the number of the UUID: that of the bytes,
/// the most significant first, if there are sixteen, and an error otherwise.
#[verifier::external_body]
fn uuid_from_slice(bytes: &[u8]) -> (r: Result<u128, uuid::Error>)
    ensures
        r is Ok <==> bytes@.len() == 16,
        r matches Ok(id) ==> id == endian::be_value(bytes@),
{
    uuid::Uuid::from_slice(bytes).map(|id| id.as_u128())
}

/// `String::from_utf8_lossy`: the text of bytes that are valid UTF-8. What the
/// text of other bytes is has the name [`parse::lossy_utf8`].
#[verifier::external_body]
fn from_utf8_lossy(bytes: &[u8]) -> (r: String)
    ensures
        r@ == (if utf8::valid_utf8(bytes@) {
            utf8::decode_utf8(bytes@)
        } else {
            parse::lossy_utf8(bytes@)
        }),
{
    String::from_utf8_lossy(bytes).into_owned()
}

/// Takes off one byte.
fn byte(rd: &mut &[u8]) -> (r: Result<u8, DecodeError>)
    ensures
        parse::agrees(parse::byte(old(rd)@), r, final(rd)@),
{
    match read_u8(rd) {
        Ok(n) => Ok(n),
        Err(_) => Err(DecodeError::UnexpectedEof),
    }
}

/// Takes off as many bytes as `len` says.
fn bytes<'a>(rd: &mut &'a [u8], len: usize) -> (r: Result<&'a [u8], DecodeError>)
    ensures
        parse::agrees(parse::bytes(old(rd)@, len as nat), parse::viewed(r), final(rd)@),
{
    if rd.len() < len {
        return Err(DecodeError::UnexpectedEof);
    }
    let (front, rest) = rd.split_at(len);
    *rd = rest;
    assert(front@ =~= old(rd)@.take(len as int));
    assert(rest@ =~= old(rd)@.skip(len as int));
    Ok(front)
}

/// Takes off a number.
pub fn u128(rd: &mut &[u8]) -> (r: Result<u128, DecodeError>)
    ensures
        parse::agrees(parse::number(old(rd)@), r, final(rd)@),
{
    let first_byte = byte(rd)?;
    if first_byte <= 250 {
        Ok(first_byte as u128)
    } else if first_byte == 251 {
        match read_u16(rd) {
            Ok(n) => Ok(n as u128),
            Err(_) => Err(DecodeError::UnexpectedEof),
        }
    } else if first_byte == 252 {
        match read_u32(rd) {
            Ok(n) => Ok(n as u128),
            Err(_) => Err(DecodeError::UnexpectedEof),
        }
    } else if first_byte == 253 {
        match read_u64(rd) {
            Ok(n) => Ok(n as u128),
            Err(_) => Err(DecodeError::UnexpectedEof),
        }
    } else if first_byte == 254 {
        match read_u128(rd) {
            Ok(n) => Ok(n),
            Err(_) => Err(DecodeError::UnexpectedEof),
        }
    } else {
        Err(DecodeError::InvalidMarker)
    }
}

/// Takes off a number that is a count or a tag. A number that is too large for
/// a `usize` loses its highest bits.
fn size(rd: &mut &[u8]) -> (r: Result<usize, DecodeError>)
    ensures
        parse::agrees(parse::size(old(rd)@), r, final(rd)@),
{
    let n = u128(rd)?;
    Ok(n as usize)
}

/// Takes off an identifier.
fn uuid(rd: &mut &[u8]) -> (r: Result<u128, DecodeError>)
    ensures
        parse::agrees(parse::uuid(old(rd)@), r, final(rd)@),
{
    let uuid_len = size(rd)?;
    let uuid_bytes = bytes(rd, uuid_len)?;
    match uuid_from_slice(uuid_bytes) {
        Ok(id) => Ok(id),
        Err(_) => Err(DecodeError::InvalidUuid),
    }
}

/// Takes off a client's identifier.
pub fn clientid(rd: &mut &[u8]) -> (r: Result<ClientId, DecodeError>)
    ensures
        parse::agrees(parse::clientid(old(rd)@), r, final(rd)@),
{
    Ok(ClientId(uuid(rd)?))
}

/// Takes off a server's identifier.
pub fn serverid(rd: &mut &[u8]) -> (r: Result<ServerId, DecodeError>)
    ensures
        parse::agrees(parse::serverid(old(rd)@), r, final(rd)@),
{
    Ok(ServerId(uuid(rd)?))
}

/// Takes off a text.
pub fn string(rd: &mut &[u8]) -> (r: Result<String, DecodeError>)
    ensures
        parse::agrees(parse::string(old(rd)@), parse::viewed(r), final(rd)@),
{
    let size = size(rd)?;
    let string_bytes = bytes(rd, size)?;
    Ok(from_utf8_lossy(string_bytes))
}

/// Takes off an array of `len` bytes, after their count.
fn array<'a>(rd: &mut &'a [u8], len: usize) -> (r: Result<&'a [u8], DecodeError>)
    ensures
        parse::agrees(parse::array(old(rd)@, len as nat), parse::viewed(r), final(rd)@),
{
    let size = size(rd)?;
    let content = bytes(rd, size)?;
    if content.len() != len {
        return Err(DecodeError::InvalidLength);
    }
    Ok(content)
}

/// Takes off an array of eight bytes.
fn eight(rd: &mut &[u8]) -> (r: Result<[u8; 8], DecodeError>)
    ensures
        parse::agrees(parse::array(old(rd)@, 8), parse::viewed(r), final(rd)@),
{
    let b = array(rd, 8)?;
    let array: [u8; 8] = [b[0], b[1], b[2], b[3], b[4], b[5], b[6], b[7]];
    assert(array@ =~= b@);
    Ok(array)
}

/// Takes off an array of sixteen bytes.
fn sixteen(rd: &mut &[u8]) -> (r: Result<[u8; 16], DecodeError>)
    ensures
        parse::agrees(parse::array(old(rd)@, 16), parse::viewed(r), final(rd)@),
{
    let b = array(rd, 16)?;
    let array: [u8; 16] = [
        b[0],
        b[1],
        b[2],
        b[3],
        b[4],
        b[5],
        b[6],
        b[7],
        b[8],
        b[9],
        b[10],
        b[11],
        b[12],
        b[13],
        b[14],
        b[15],
    ];
    assert(array@ =~= b@);
    Ok(array)
}

/// Takes off an authentication message.
pub fn auth(rd: &mut &[u8]) -> (r: Result<AuthMessage, DecodeError>)
    ensures
        parse::agrees(parse::auth(old(rd)@), parse::viewed(r), final(rd)@),
{
    let tag = byte(rd)?;
    match tag {
        0 => {
            let user = clientid(rd)?;
            let nonce = eight(rd)?;
            Ok(AuthMessage::Hello { user, nonce })
        },
        1 => {
            let server = serverid(rd)?;
            let nonce = eight(rd)?;
            Ok(AuthMessage::Nonce { server, nonce })
        },
        2 => {
            let response = sixteen(rd)?;
            Ok(AuthMessage::Auth { response })
        },
        _ => Err(DecodeError::InvalidTag),
    }
}

/// Takes off `n` identifiers of clients.
fn client_ids(rd: &mut &[u8], n: usize) -> (r: Result<Vec<ClientId>, DecodeError>)
    ensures
        parse::agrees(parse::client_ids(old(rd)@, n as nat, seq![]), parse::viewed(r), final(rd)@),
{
    let mut ids: Vec<ClientId> = Vec::new();
    let mut i: usize = 0;
    while i < n
        invariant
            i <= n,
            parse::client_ids(rd@, (n - i) as nat, ids@) == parse::client_ids(
                old(rd)@,
                n as nat,
                seq![],
            ),
        decreases n - i,
    {
        ids.push(clientid(rd)?);
        i = i + 1;
    }
    Ok(ids)
}

/// Takes off `n` identifiers of servers.
fn server_ids(rd: &mut &[u8], n: usize) -> (r: Result<Vec<ServerId>, DecodeError>)
    ensures
        parse::agrees(parse::server_ids(old(rd)@, n as nat, seq![]), parse::viewed(r), final(rd)@),
{
    let mut ids: Vec<ServerId> = Vec::new();
    let mut i: usize = 0;
    while i < n
        invariant
            i <= n,
            parse::server_ids(rd@, (n - i) as nat, ids@) == parse::server_ids(
                old(rd)@,
                n as nat,
                seq![],
            ),
        decreases n - i,
    {
        ids.push(serverid(rd)?);
        i = i + 1;
    }
    Ok(ids)
}

/// Takes off `n` clients with their servers.
fn destinations(rd: &mut &[u8], n: usize) -> (r: Result<Vec<(ClientId, ServerId)>, DecodeError>)
    ensures
        parse::agrees(
            parse::destinations(old(rd)@, n as nat, seq![]),
            parse::viewed(r),
            final(rd)@,
        ),
{
    let mut dsts: Vec<(ClientId, ServerId)> = Vec::new();
    let mut i: usize = 0;
    while i < n
        invariant
            i <= n,
            parse::destinations(rd@, (n - i) as nat, dsts@) == parse::destinations(
                old(rd)@,
                n as nat,
                seq![],
            ),
        decreases n - i,
    {
        let client_id = clientid(rd)?;
        let server_id = serverid(rd)?;
        dsts.push((client_id, server_id));
        i = i + 1;
    }
    Ok(dsts)
}

/// What a result with a map of users says.
pub open spec fn viewed_users(r: Result<HashMap<u128, String>, DecodeError>) -> Result<
    Map<u128, Seq<char>>,
    DecodeError,
> {
    match r {
        Ok(users) => Ok(messages::names(users@)),
        Err(e) => Err(e),
    }
}

/// Takes off users with their names. Of two with the same identifier the later
/// one counts.
pub fn userlist(rd: &mut &[u8]) -> (r: Result<HashMap<u128, String>, DecodeError>)
    ensures
        parse::agrees(parse::userlist(old(rd)@), viewed_users(r), final(rd)@),
{
    broadcast use vstd::std_specs::hash::group_hash_axioms;

    let mut clients: HashMap<u128, String> = HashMap::new();
    let n = size(rd)?;
    let mut i: usize = 0;
    let ghost start = rd@;
    assert(messages::names(clients@) =~= Map::<u128, Seq<char>>::empty());
    while i < n
        invariant
            i <= n,
            parse::users(rd@, (n - i) as nat, messages::names(clients@)) == parse::users(
                start,
                n as nat,
                Map::empty(),
            ),
            parse::userlist(old(rd)@) == parse::users(start, n as nat, Map::empty()),
        decreases n - i,
    {
        let client_id = uuid(rd)?;
        let client_name = string(rd)?;
        let ghost before = clients@;
        clients.insert(client_id, client_name);
        assert(messages::names(clients@) =~= messages::names(before).insert(
            client_id,
            client_name@,
        ));
        i = i + 1;
    }
    Ok(clients)
}

/// Takes off a client's message.
pub fn client(rd: &mut &[u8]) -> (r: Result<ClientMessage, DecodeError>)
    ensures
        parse::agrees(parse::client(old(rd)@), parse::viewed(r), final(rd)@),
{
    let tag = byte(rd)?;
    match tag {
        0 => {
            let dest = clientid(rd)?;
            let content = string(rd)?;
            Ok(ClientMessage::Text { dest, content })
        },
        1 => {
            let dest_size = size(rd)?;
            let dest = client_ids(rd, dest_size)?;
            let content = string(rd)?;
            Ok(ClientMessage::MText { dest, content })
        },
        _ => Err(DecodeError::InvalidTag),
    }
}

/// Takes off a server's message.
pub fn server(rd: &mut &[u8]) -> (r: Result<ServerMessage, DecodeError>)
    ensures
        parse::agrees(parse::server(old(rd)@), parse::viewed(r), final(rd)@),
{
    let tag = byte(rd)?;
    match tag {
        0 => {
            let route_size = size(rd)?;
            let route = server_ids(rd, route_size)?;
            let clients = userlist(rd)?;
            Ok(ServerMessage::Announce { route, clients })
        },
        1 => {
            let src = clientid(rd)?;
            let srcsrv = serverid(rd)?;
            let dsts_size = size(rd)?;
            let dsts = destinations(rd, dsts_size)?;
            let content = string(rd)?;
            Ok(ServerMessage::Message(FullyQualifiedMessage { src, srcsrv, dsts, content }))
        },
        _ => Err(DecodeError::InvalidTag),
    }
}

/// Takes off the reason of a refusal.
fn client_error(rd: &mut &[u8]) -> (r: Result<ClientError, DecodeError>)
    ensures
        parse::agrees(parse::client_error(old(rd)@), r, final(rd)@),
{
    let err_tag = size(rd)?;
    match err_tag {
        0 => Ok(ClientError::WorkProofError),
        1 => Ok(ClientError::UnknownClient),
        2 => Ok(ClientError::SequenceError),
        3 => Ok(ClientError::BoxFull(clientid(rd)?)),
        4 => Ok(ClientError::InternalError),
        _ => Err(DecodeError::InvalidErrorTag),
    }
}

/// Takes off one reply to a client.
pub fn client_reply(rd: &mut &[u8]) -> (r: Result<ClientReply, DecodeError>)
    ensures
        parse::agrees(parse::client_reply(old(rd)@), parse::viewed(r), final(rd)@),
{
    let tag = size(rd)?;
    match tag {
        0 => Ok(ClientReply::Delivered),
        1 => {
            let err = client_error(rd)?;
            Ok(ClientReply::Error(err))
        },
        2 => Ok(ClientReply::Delayed),
        3 => {
            let server_id = serverid(rd)?;
            let server_msg = server(rd)?;
            Ok(ClientReply::Transfer(server_id, server_msg))
        },
        _ => Err(DecodeError::InvalidTag),
    }
}

/// Takes off replies to a client for as long as there are any. As nothing
/// tells where the replies end, reading always ends with an error: with
/// [`DecodeError::UnexpectedEof`] where the bytes hold replies and nothing
/// else. [`client_reply`] takes off one at a time.
pub fn client_replies(rd: &mut &[u8]) -> (r: Result<Vec<ClientReply>, DecodeError>)
    ensures
        r == Err::<Vec<ClientReply>, DecodeError>(parse::client_replies_end(old(rd)@)),
{
    let mut replies: Vec<ClientReply> = Vec::new();
    loop
        invariant
            parse::client_replies_end(rd@) == parse::client_replies_end(old(rd)@),
        decreases rd@.len(),
    {
        proof {
            front::law_client_reply(rd@, seq![]);
        }
        replies.push(client_reply(rd)?);
    }
}

/// Takes off the answer to a client that polls.
pub fn client_poll_reply(rd: &mut &[u8]) -> (r: Result<ClientPollReply, DecodeError>)
    ensures
        parse::agrees(parse::client_poll_reply(old(rd)@), parse::viewed(r), final(rd)@),
{
    let tag = size(rd)?;
    match tag {
        0 => {
            let src = clientid(rd)?;
            let content = string(rd)?;
            Ok(ClientPollReply::Message { src, content })
        },
        1 => {
            let err_tag = size(rd)?;
            match err_tag {
                0 => {
                    let id = clientid(rd)?;
                    Ok(ClientPollReply::DelayedError(DelayedError::UnknownRecipient(id)))
                },
                _ => Err(DecodeError::InvalidErrorTag),
            }
        },
        2 => Ok(ClientPollReply::Nothing),
        _ => Err(DecodeError::InvalidTag),
    }
}

/// Takes off a client's query.
pub fn client_query(rd: &mut &[u8]) -> (r: Result<ClientQuery, DecodeError>)
    ensures
        parse::agrees(parse::client_query(old(rd)@), parse::viewed(r), final(rd)@),
{
    let tag = size(rd)?;
    match tag {
        0 => {
            let name = string(rd)?;
            Ok(ClientQuery::Register(name))
        },
        1 => {
            let msg = client(rd)?;
            Ok(ClientQuery::Message(msg))
        },
        2 => Ok(ClientQuery::Poll),
        3 => Ok(ClientQuery::ListUsers),
        _ => Err(DecodeError::InvalidTag),
    }
}

/// A request with the content that was read, or why none was read.
pub open spec fn with_content<X>(
    header: (u128, ClientId, u128),
    content: Result<X, DecodeError>,
) -> Result<Sequence<X>, DecodeError> {
    match content {
        Ok(content) => Ok(
            Sequence { seqid: header.0, src: header.1, workproof: header.2, content },
        ),
        Err(e) => Err(e),
    }
}

/// Takes off a sequenced request, with `d` to take off its content. `d` is
/// called once, on the bytes behind the number, the client and the proof of
/// work, if these could be read; its error is returned.
pub fn sequence<X, DEC>(rd: &mut &[u8], d: DEC) -> (r: Result<Sequence<X>, DecodeError>)
    where DEC: FnOnce(&mut &[u8]) -> Result<X, DecodeError>,
    requires
        parse::sequence_header(old(rd)@) matches Ok((_, rest)) ==> forall|v: &mut &[u8]|
            v@ == rest ==> #[trigger] call_requires(d, (v,)),
    ensures
        match parse::sequence_header(old(rd)@) {
            Ok((header, rest)) => exists|v: &mut &[u8], content: Result<X, DecodeError>|
                v@ == rest && final(v)@ == final(rd)@ && #[trigger] call_ensures(d, (v,), content)
                    && r == with_content(header, content),
            Err(e) => r == Err::<Sequence<X>, DecodeError>(e),
        },
{
    let seqid = u128(rd)?;
    let src = clientid(rd)?;
    let workproof = u128(rd)?;
    let content = d(rd)?;
    Ok(Sequence { seqid, src, workproof, content })
}

} // verus!
