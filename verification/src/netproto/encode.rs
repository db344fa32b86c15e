//! Writing messages.
use super::wire;
use crate::endian;
use crate::messages;
use crate::messages::{
    AuthMessage, ClientError, ClientId, ClientMessage, ClientPollReply, ClientQuery, ClientReply,
    DelayedError, Sequence, ServerId, ServerMessage,
};
use crate::walk;
use byteorder::{LittleEndian, WriteBytesExt};
use std::collections::HashMap;
use vstd::prelude::*;

verus! {

/// The error of a writer.
#[verifier::external_type_specification]
#[verifier::external_body]
pub struct ExIoError(std::io::Error);

/// `byteorder`'s `WriteBytesExt::write_u8` on a vector: the byte is appended,
/// and a vector refuses none.
#[verifier::external_body]
fn write_u8(w: &mut Vec<u8>, n: u8) -> (r: std::io::Result<()>)
    ensures
        r is Ok,
        final(w)@ == old(w)@ + seq![n],
{
    w.write_u8(n)
}

/// `byteorder`'s `WriteBytesExt::write_u16` on a vector, in little-endian
/// order: the two bytes of the number are appended, the least significant
/// first, and a vector refuses none.
#[verifier::external_body]
fn write_u16(w: &mut Vec<u8>, n: u16) -> (r: std::io::Result<()>)
    ensures
        r is Ok,
        final(w)@ == old(w)@ + endian::le_bytes(n as nat, 2),
{
    w.write_u16::<LittleEndian>(n)
}

/// `byteorder`'s `WriteBytesExt::write_u32` on a vector, in little-endian
/// order: the four bytes of the number are appended, the least significant
/// first, and a vector refuses none.
#[verifier::external_body]
fn write_u32(w: &mut Vec<u8>, n: u32) -> (r: std::io::Result<()>)
    ensures
        r is Ok,
        final(w)@ == old(w)@ + endian::le_bytes(n as nat, 4),
{
    w.write_u32::<LittleEndian>(n)
}

/// `byteorder`'s `WriteBytesExt::write_u64` on a vector, in little-endian
/// order: the eight bytes of the number are appended, the least significant
/// first, and a vector refuses none.
#[verifier::external_body]
fn write_u64(w: &mut Vec<u8>, n: u64) -> (r: std::io::Result<()>)
    ensures
        r is Ok,
        final(w)@ == old(w)@ + endian::le_bytes(n as nat, 8),
{
    w.write_u64::<LittleEndian>(n)
}

/// `byteorder`'s `WriteBytesExt::write_u128` on a vector, in little-endian
/// order: the sixteen bytes of the number are appended, the least significant
/// first, and a vector refuses none.
#[verifier::external_body]
fn write_u128(w: &mut Vec<u8>, n: u128) -> (r: std::io::Result<()>)
    ensures
        r is Ok,
        final(w)@ == old(w)@ + endian::le_bytes(n as nat, 16),
{
    w.write_u128::<LittleEndian>(n)
}

/// `uuid`'s `Uuid::as_bytes`, of the UUID with the given number: its sixteen
/// bytes, the most significant first.
#[verifier::external_body]
fn uuid_bytes(id: u128) -> (r: [u8; 16])
    ensures
        r@ == endian::be_bytes(id as nat, 16),
{
    *uuid::Uuid::from_u128(id).as_bytes()
}

/// Appends a number.
pub fn u128(w: &mut Vec<u8>, m: u128) -> (r: std::io::Result<()>)
    ensures
        r is Ok,
        final(w)@ == old(w)@ + wire::number(m),
{
    if m < 251 {
        write_u8(w, m as u8)?;
    } else if m < 0x1_0000 {
        write_u8(w, 251)?;
        write_u16(w, m as u16)?;
    } else if m < 0x1_0000_0000 {
        write_u8(w, 252)?;
        write_u32(w, m as u32)?;
    } else if m < 0x1_0000_0000_0000_0000 {
        write_u8(w, 253)?;
        write_u64(w, m as u64)?;
    } else {
        write_u8(w, 254)?;
        write_u128(w, m)?;
    }
    assert(w@ =~= old(w)@ + wire::number(m));
    Ok(())
}

/// Appends bytes.
fn write_all(w: &mut Vec<u8>, bytes: &[u8])
    ensures
        final(w)@ == old(w)@ + bytes@,
{
    w.extend_from_slice(bytes);
    assert(w@ =~= old(w)@ + bytes@);
}

/// Appends bytes after their count.
fn counted(w: &mut Vec<u8>, bytes: &[u8]) -> (r: std::io::Result<()>)
    ensures
        r is Ok,
        final(w)@ == old(w)@ + wire::counted(bytes@),
{
    u128(w, bytes.len() as u128)?;
    write_all(w, bytes);
    assert(w@ =~= old(w)@ + wire::counted(bytes@));
    Ok(())
}

/// Appends the sixteen bytes of an identifier, after their count.
fn uuid(w: &mut Vec<u8>, m: u128) -> (r: std::io::Result<()>)
    ensures
        r is Ok,
        final(w)@ == old(w)@ + wire::uuid(m),
{
    let bytes = uuid_bytes(m);
    counted(w, bytes.as_slice())
}

/// Appends a client's identifier.
pub fn clientid(w: &mut Vec<u8>, m: &ClientId) -> (r: std::io::Result<()>)
    ensures
        r is Ok,
        final(w)@ == old(w)@ + wire::clientid(*m),
{
    uuid(w, m.0)
}

/// Appends a server's identifier.
pub fn serverid(w: &mut Vec<u8>, m: &ServerId) -> (r: std::io::Result<()>)
    ensures
        r is Ok,
        final(w)@ == old(w)@ + wire::serverid(*m),
{
    uuid(w, m.0)
}

/// Appends the UTF-8 bytes of a text, after their count.
pub fn string(w: &mut Vec<u8>, m: &str) -> (r: std::io::Result<()>)
    ensures
        r is Ok,
        final(w)@ == old(w)@ + wire::string(m@),
{
    counted(w, m.as_bytes())
}

/// Appends an authentication message.
pub fn auth(w: &mut Vec<u8>, m: &AuthMessage) -> (r: std::io::Result<()>)
    ensures
        r is Ok,
        final(w)@ == old(w)@ + wire::auth(m@),
{
    match m {
        AuthMessage::Hello { user, nonce } => {
            u128(w, 0)?;
            clientid(w, user)?;
            counted(w, nonce.as_slice())?;
        },
        AuthMessage::Nonce { server, nonce } => {
            u128(w, 1)?;
            serverid(w, server)?;
            counted(w, nonce.as_slice())?;
        },
        AuthMessage::Auth { response } => {
            u128(w, 2)?;
            counted(w, response.as_slice())?;
        },
    }
    assert(w@ =~= old(w)@ + wire::auth(m@));
    Ok(())
}

/// Appends identifiers of clients, one after the other.
fn client_ids(w: &mut Vec<u8>, ids: &Vec<ClientId>) -> (r: std::io::Result<()>)
    ensures
        r is Ok,
        final(w)@ == old(w)@ + wire::client_ids(ids@),
{
    let mut i: usize = 0;
    assert(ids@.skip(0) =~= ids@);
    while i < ids.len()
        invariant
            i <= ids@.len(),
            old(w)@ + wire::client_ids(ids@) == w@ + wire::client_ids(ids@.skip(i as int)),
        decreases ids@.len() - i,
    {
        assert(ids@.skip(i as int).drop_first() =~= ids@.skip(i + 1));
        let ghost before = w@;
        clientid(w, &ids[i])?;
        assert(before + wire::client_ids(ids@.skip(i as int)) =~= w@ + wire::client_ids(
            ids@.skip(i + 1),
        ));
        i = i + 1;
    }
    assert(w@ =~= old(w)@ + wire::client_ids(ids@));
    Ok(())
}

/// Appends identifiers of servers, one after the other.
fn server_ids(w: &mut Vec<u8>, ids: &Vec<ServerId>) -> (r: std::io::Result<()>)
    ensures
        r is Ok,
        final(w)@ == old(w)@ + wire::server_ids(ids@),
{
    let mut i: usize = 0;
    assert(ids@.skip(0) =~= ids@);
    while i < ids.len()
        invariant
            i <= ids@.len(),
            old(w)@ + wire::server_ids(ids@) == w@ + wire::server_ids(ids@.skip(i as int)),
        decreases ids@.len() - i,
    {
        assert(ids@.skip(i as int).drop_first() =~= ids@.skip(i + 1));
        let ghost before = w@;
        serverid(w, &ids[i])?;
        assert(before + wire::server_ids(ids@.skip(i as int)) =~= w@ + wire::server_ids(
            ids@.skip(i + 1),
        ));
        i = i + 1;
    }
    assert(w@ =~= old(w)@ + wire::server_ids(ids@));
    Ok(())
}

/// Appends clients with their servers, one after the other.
fn destinations(w: &mut Vec<u8>, dsts: &Vec<(ClientId, ServerId)>) -> (r: std::io::Result<()>)
    ensures
        r is Ok,
        final(w)@ == old(w)@ + wire::destinations(dsts@),
{
    let mut i: usize = 0;
    assert(dsts@.skip(0) =~= dsts@);
    while i < dsts.len()
        invariant
            i <= dsts@.len(),
            old(w)@ + wire::destinations(dsts@) == w@ + wire::destinations(dsts@.skip(i as int)),
        decreases dsts@.len() - i,
    {
        assert(dsts@.skip(i as int).drop_first() =~= dsts@.skip(i + 1));
        let ghost before = w@;
        clientid(w, &dsts[i].0)?;
        serverid(w, &dsts[i].1)?;
        assert(before + wire::destinations(dsts@.skip(i as int)) =~= w@ + wire::destinations(
            dsts@.skip(i + 1),
        ));
        i = i + 1;
    }
    assert(w@ =~= old(w)@ + wire::destinations(dsts@));
    Ok(())
}

/// The users that `order` goes through, with their names as text.
spec fn named(order: Seq<(u128, &String)>) -> Seq<(u128, Seq<char>)> {
    walk::with_values(walk::entries(order), |name: String| name@)
}

/// Appends users with their names, one after the other.
fn entries(w: &mut Vec<u8>, users: &Vec<(u128, &String)>) -> (r: std::io::Result<()>)
    ensures
        r is Ok,
        final(w)@ == old(w)@ + wire::entries(named(users@)),
{
    let ghost all = named(users@);
    let mut i: usize = 0;
    assert(all.skip(0) =~= all);
    while i < users.len()
        invariant
            i <= users@.len(),
            all == named(users@),
            old(w)@ + wire::entries(all) == w@ + wire::entries(all.skip(i as int)),
        decreases users@.len() - i,
    {
        assert(all.skip(i as int).drop_first() =~= all.skip(i + 1));
        let ghost before = w@;
        uuid(w, users[i].0)?;
        string(w, users[i].1)?;
        assert(before + wire::entries(all.skip(i as int)) =~= w@ + wire::entries(all.skip(i + 1)));
        i = i + 1;
    }
    assert(w@ =~= old(w)@ + wire::entries(all));
    Ok(())
}

/// Appends the users of a map with their names, after their count. They come
/// in the order in which the map gives them.
pub fn userlist(w: &mut Vec<u8>, m: &HashMap<u128, String>) -> (r: std::io::Result<()>)
    ensures
        r is Ok,
        wire::extends(old(w)@, final(w)@),
        wire::is_userlist(messages::names(m@), wire::added(old(w)@, final(w)@)),
{
    let users = walk::walk(m);
    u128(w, users.len() as u128)?;
    entries(w, &users)?;
    proof {
        walk::law_values(walk::entries(users@), m@, |name: String| name@);
        assert(wire::added(old(w)@, w@) =~= wire::user_entries(named(users@)));
        assert(w@.take(old(w)@.len() as int) =~= old(w)@);
    }
    Ok(())
}

/// Appends a server's message. The users of an announcement come in the order
/// in which their map gives them.
pub fn server(w: &mut Vec<u8>, m: &ServerMessage) -> (r: std::io::Result<()>)
    ensures
        r is Ok,
        wire::extends(old(w)@, final(w)@),
        wire::is_server(m@, wire::added(old(w)@, final(w)@)),
{
    match m {
        ServerMessage::Message(msg) => {
            u128(w, 1)?;
            clientid(w, &msg.src)?;
            serverid(w, &msg.srcsrv)?;
            u128(w, msg.dsts.len() as u128)?;
            destinations(w, &msg.dsts)?;
            string(w, &msg.content)?;
            assert(wire::added(old(w)@, w@) =~= wire::number(1) + wire::qualified(msg@));
            assert(wire::is_server(m@, wire::added(old(w)@, w@)));
        },
        ServerMessage::Announce { route, clients } => {
            u128(w, 0)?;
            u128(w, route.len() as u128)?;
            server_ids(w, route)?;
            let ghost middle = w@;
            userlist(w, clients)?;
            proof {
                let written = wire::added(middle, w@);
                let users = messages::names(clients@);
                let order = choose|order: Seq<(u128, Seq<char>)>| #[trigger]
                    walk::lists(order, users) && written == wire::user_entries(order);
                assert(w@ =~= middle + written);
                assert(wire::added(old(w)@, w@) =~= wire::announced(route@) + wire::user_entries(
                    order,
                ));
                assert(wire::is_announce(route@, users, wire::added(old(w)@, w@)));
                assert(wire::is_server(m@, wire::added(old(w)@, w@)));
            }
        },
    }
    assert(w@.take(old(w)@.len() as int) =~= old(w)@);
    Ok(())
}

/// Appends a client's message.
pub fn client(w: &mut Vec<u8>, m: &ClientMessage) -> (r: std::io::Result<()>)
    ensures
        r is Ok,
        final(w)@ == old(w)@ + wire::client(m@),
{
    match m {
        ClientMessage::Text { dest, content } => {
            u128(w, 0)?;
            clientid(w, dest)?;
            string(w, content)?;
        },
        ClientMessage::MText { dest, content } => {
            u128(w, 1)?;
            u128(w, dest.len() as u128)?;
            client_ids(w, dest)?;
            string(w, content)?;
        },
    }
    assert(w@ =~= old(w)@ + wire::client(m@));
    Ok(())
}

/// Appends the reason of a refusal.
fn client_error(w: &mut Vec<u8>, m: &ClientError) -> (r: std::io::Result<()>)
    ensures
        r is Ok,
        final(w)@ == old(w)@ + wire::client_error(*m),
{
    match m {
        ClientError::WorkProofError => {
            u128(w, 0)?;
        },
        ClientError::UnknownClient => {
            u128(w, 1)?;
        },
        ClientError::SequenceError => {
            u128(w, 2)?;
        },
        ClientError::BoxFull(id) => {
            u128(w, 3)?;
            clientid(w, id)?;
        },
        ClientError::InternalError => {
            u128(w, 4)?;
        },
    }
    assert(w@ =~= old(w)@ + wire::client_error(*m));
    Ok(())
}

/// Appends one reply to a client.
pub fn client_reply(w: &mut Vec<u8>, m: &ClientReply) -> (r: std::io::Result<()>)
    ensures
        r is Ok,
        wire::extends(old(w)@, final(w)@),
        wire::is_client_reply(m@, wire::added(old(w)@, final(w)@)),
{
    match m {
        ClientReply::Delivered => {
            u128(w, 0)?;
            assert(wire::added(old(w)@, w@) =~= wire::number(0));
        },
        ClientReply::Error(err) => {
            u128(w, 1)?;
            client_error(w, err)?;
            assert(wire::added(old(w)@, w@) =~= wire::number(1) + wire::client_error(*err));
        },
        ClientReply::Delayed => {
            u128(w, 2)?;
            assert(wire::added(old(w)@, w@) =~= wire::number(2));
        },
        ClientReply::Transfer(id, msg) => {
            u128(w, 3)?;
            serverid(w, id)?;
            let ghost middle = w@;
            server(w, msg)?;
            proof {
                let inner = wire::added(middle, w@);
                assert(wire::is_server(msg@, inner));
                assert(w@ =~= middle + inner);
                assert(wire::added(old(w)@, w@) =~= wire::number(3) + wire::serverid(*id) + inner);
            }
        },
    }
    assert(w@.take(old(w)@.len() as int) =~= old(w)@);
    Ok(())
}

/// Appends replies to a client, one after the other. Their count is not
/// written.
pub fn client_replies(w: &mut Vec<u8>, m: &[ClientReply]) -> (r: std::io::Result<()>)
    ensures
        r is Ok,
        wire::extends(old(w)@, final(w)@),
        wire::is_client_replies(messages::reply_views(m@), wire::added(old(w)@, final(w)@)),
{
    let ghost all = messages::reply_views(m@);
    let mut i: usize = 0;
    proof {
        let parts: Seq<Seq<u8>> = seq![];
        assert(wire::are_client_replies(all.take(0), parts));
        assert(wire::added(w@, w@) =~= parts.flatten());
        assert(w@.take(w@.len() as int) =~= w@);
    }
    while i < m.len()
        invariant
            i <= m@.len(),
            all == messages::reply_views(m@),
            wire::extends(old(w)@, w@),
            wire::is_client_replies(all.take(i as int), wire::added(old(w)@, w@)),
        decreases m@.len() - i,
    {
        let ghost before = w@;
        client_reply(w, &m[i])?;
        proof {
            let done = wire::added(old(w)@, before);
            let more = wire::added(before, w@);
            assert(w@ =~= before + more);
            wire::lemma_client_replies_push(all.take(i as int), done, all[i as int], more);
            assert(all.take(i as int).push(all[i as int]) =~= all.take(i + 1));
            assert(wire::added(old(w)@, w@) =~= done + more);
            assert(w@.take(old(w)@.len() as int) =~= old(w)@);
        }
        i = i + 1;
    }
    assert(all.take(i as int) =~= all);
    Ok(())
}

/// Appends the answer to a client that polls.
pub fn client_poll_reply(w: &mut Vec<u8>, m: &ClientPollReply) -> (r: std::io::Result<()>)
    ensures
        r is Ok,
        final(w)@ == old(w)@ + wire::client_poll_reply(m@),
{
    match m {
        ClientPollReply::Message { src, content } => {
            u128(w, 0)?;
            clientid(w, src)?;
            string(w, content)?;
        },
        ClientPollReply::DelayedError(err) => {
            u128(w, 1)?;
            match err {
                DelayedError::UnknownRecipient(id) => {
                    u128(w, 0)?;
                    clientid(w, id)?;
                },
            }
        },
        ClientPollReply::Nothing => {
            u128(w, 2)?;
        },
    }
    assert(w@ =~= old(w)@ + wire::client_poll_reply(m@));
    Ok(())
}

/// Appends a client's query.
pub fn client_query(w: &mut Vec<u8>, m: &ClientQuery) -> (r: std::io::Result<()>)
    ensures
        r is Ok,
        final(w)@ == old(w)@ + wire::client_query(m@),
{
    match m {
        ClientQuery::Register(name) => {
            u128(w, 0)?;
            string(w, name)?;
        },
        ClientQuery::Message(msg) => {
            u128(w, 1)?;
            client(w, msg)?;
        },
        ClientQuery::Poll => {
            u128(w, 2)?;
        },
        ClientQuery::ListUsers => {
            u128(w, 3)?;
        },
    }
    assert(w@ =~= old(w)@ + wire::client_query(m@));
    Ok(())
}

/// Appends a sequenced request, with `f` to append its content. `f` is called
/// once, behind the number, the client and the proof of work, and what it
/// returns is returned.
pub fn sequence<X, ENC>(w: &mut Vec<u8>, m: &Sequence<X>, f: ENC) -> (r: std::io::Result<()>)
    where ENC: FnOnce(&mut Vec<u8>, &X) -> std::io::Result<()>,
    requires
        forall|v: &mut Vec<u8>|
            v@ == old(w)@ + wire::sequence_header(m.seqid, m.src, m.workproof) ==>
            #[trigger] call_requires(f, (v, &m.content)),
    ensures
        exists|v: &mut Vec<u8>|
            v@ == old(w)@ + wire::sequence_header(m.seqid, m.src, m.workproof)
                && *final(v) == *final(w) && #[trigger] call_ensures(f, (v, &m.content), r),
{
    u128(w, m.seqid)?;
    clientid(w, &m.src)?;
    u128(w, m.workproof)?;
    assert(w@ =~= old(w)@ + wire::sequence_header(m.seqid, m.src, m.workproof));
    f(w, &m.content)
}

} // verus!
