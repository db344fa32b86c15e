//! The bytes that messages are written as, and the messages that bytes give.
use chatproto::messages::{
    AuthMessage, ClientError, ClientId, ClientMessage, ClientPollReply, ClientQuery, ClientReply,
    DelayedError, FullyQualifiedMessage, Sequence, ServerId, ServerMessage,
};
use chatproto::netproto::decode::DecodeError;
use chatproto::netproto::{decode, encode};
use std::collections::HashMap;

const ID: u128 = 0x00112233_4455_6677_8899_aabbccddeeff;

const ID_BYTES: [u8; 17] = [
    16, 0x00, 0x11, 0x22, 0x33, 0x44, 0x55, 0x66, 0x77, 0x88, 0x99, 0xaa, 0xbb, 0xcc, 0xdd, 0xee,
    0xff,
];

fn id_bytes(id: u128) -> Vec<u8> {
    let mut bytes = vec![16u8];
    bytes.extend_from_slice(&id.to_be_bytes());
    bytes
}

fn joined(parts: &[&[u8]]) -> Vec<u8> {
    parts.concat()
}

fn number(m: u128) -> Vec<u8> {
    let mut w = Vec::new();
    encode::u128(&mut w, m).unwrap();
    w
}

fn read_number(bytes: &[u8]) -> (Result<u128, DecodeError>, usize) {
    let mut rd = bytes;
    let r = decode::u128(&mut rd);
    (r, rd.len())
}

#[test]
fn numbers_have_exact_bytes() {
    assert_eq!(number(0), vec![0]);
    assert_eq!(number(250), vec![250]);
    assert_eq!(number(251), vec![251, 251, 0]);
    assert_eq!(number(300), vec![251, 44, 1]);
    assert_eq!(number(0xffff), vec![251, 0xff, 0xff]);
    assert_eq!(number(0x1_0000), vec![252, 0, 0, 1, 0]);
    assert_eq!(number(0x1234_5678), vec![252, 0x78, 0x56, 0x34, 0x12]);
    assert_eq!(number(0xffff_ffff), vec![252, 0xff, 0xff, 0xff, 0xff]);
    assert_eq!(number(0x1_0000_0000), vec![253, 0, 0, 0, 0, 1, 0, 0, 0]);
    assert_eq!(
        number(0x0102_0304_0506_0708),
        vec![253, 8, 7, 6, 5, 4, 3, 2, 1]
    );
    assert_eq!(
        number(0x1_0000_0000_0000_0000),
        vec![254, 0, 0, 0, 0, 0, 0, 0, 0, 1, 0, 0, 0, 0, 0, 0, 0]
    );
    assert_eq!(number(u128::MAX), [vec![254], vec![0xff; 16]].concat());
}

#[test]
fn numbers_are_appended() {
    let mut w = vec![7, 8];
    encode::u128(&mut w, 9).unwrap();
    assert_eq!(w, vec![7, 8, 9]);
}

#[test]
fn numbers_come_back() {
    for m in [
        0u128,
        1,
        250,
        251,
        255,
        256,
        0xffff,
        0x1_0000,
        0xffff_ffff,
        0x1_0000_0000,
        0xffff_ffff_ffff_ffff,
        0x1_0000_0000_0000_0000,
        u128::MAX,
    ] {
        let mut bytes = number(m);
        bytes.extend_from_slice(&[1, 2, 3]);
        assert_eq!(read_number(&bytes), (Ok(m), 3));
    }
}

#[test]
fn longer_numbers_are_read_too() {
    assert_eq!(read_number(&[251, 5, 0, 9]), (Ok(5), 1));
    assert_eq!(read_number(&[252, 5, 0, 0, 0]), (Ok(5), 0));
    assert_eq!(read_number(&[253, 5, 0, 0, 0, 0, 0, 0, 0]), (Ok(5), 0));
    let mut bytes = vec![254, 5];
    bytes.extend_from_slice(&[0; 15]);
    assert_eq!(read_number(&bytes), (Ok(5), 0));
}

#[test]
fn numbers_can_be_cut_short() {
    let eof = Err(DecodeError::UnexpectedEof);
    assert_eq!(read_number(&[]).0, eof);
    assert_eq!(read_number(&[251, 1]).0, eof);
    assert_eq!(read_number(&[252, 1, 2, 3]).0, eof);
    assert_eq!(read_number(&[253, 1, 2, 3, 4, 5, 6, 7]).0, eof);
    assert_eq!(read_number(&[254, 1, 2, 3, 4, 5, 6, 7, 8, 9, 10, 11, 12, 13, 14, 15]).0, eof);
}

#[test]
fn the_last_marker_is_not_used() {
    assert_eq!(read_number(&[255, 0, 0]).0, Err(DecodeError::InvalidMarker));
}

#[test]
fn identifiers_have_exact_bytes() {
    let mut w = Vec::new();
    encode::clientid(&mut w, &ClientId(ID)).unwrap();
    assert_eq!(w, ID_BYTES.to_vec());
    let mut w = Vec::new();
    encode::serverid(&mut w, &ServerId(ID)).unwrap();
    assert_eq!(w, ID_BYTES.to_vec());
}

#[test]
fn identifiers_come_back() {
    let bytes = joined(&[&ID_BYTES, &[42]]);
    let mut rd: &[u8] = &bytes;
    assert_eq!(decode::clientid(&mut rd), Ok(ClientId(ID)));
    assert_eq!(rd, &[42]);
    let mut rd: &[u8] = &bytes;
    assert_eq!(decode::serverid(&mut rd), Ok(ServerId(ID)));
    assert_eq!(rd, &[42]);
}

#[test]
fn identifiers_have_sixteen_bytes() {
    let mut rd: &[u8] = &[3, 1, 2, 3, 4];
    assert_eq!(decode::clientid(&mut rd), Err(DecodeError::InvalidUuid));
    let mut rd: &[u8] = &[3, 1, 2];
    assert_eq!(decode::clientid(&mut rd), Err(DecodeError::UnexpectedEof));
    let mut rd: &[u8] = &[0];
    assert_eq!(decode::serverid(&mut rd), Err(DecodeError::InvalidUuid));
    let mut rd: &[u8] = &ID_BYTES[..16];
    assert_eq!(decode::serverid(&mut rd), Err(DecodeError::UnexpectedEof));
}

#[test]
fn strings_have_exact_bytes() {
    let mut w = Vec::new();
    encode::string(&mut w, "hé").unwrap();
    assert_eq!(w, vec![3, b'h', 0xc3, 0xa9]);
    let mut w = Vec::new();
    encode::string(&mut w, "").unwrap();
    assert_eq!(w, vec![0]);
    let mut w = Vec::new();
    encode::string(&mut w, &"a".repeat(300)).unwrap();
    assert_eq!(w[..3], [251, 44, 1]);
    assert_eq!(w.len(), 303);
}

#[test]
fn strings_come_back() {
    for text in ["", "hello", "hé, 漢字 🦀", &"x".repeat(1000)] {
        let mut w = Vec::new();
        encode::string(&mut w, text).unwrap();
        w.push(1);
        let mut rd: &[u8] = &w;
        assert_eq!(decode::string(&mut rd), Ok(text.to_string()));
        assert_eq!(rd, &[1]);
    }
}

#[test]
fn strings_that_are_not_utf8_are_replaced() {
    let mut rd: &[u8] = &[3, b'a', 0xff, b'b'];
    assert_eq!(decode::string(&mut rd), Ok("a\u{fffd}b".to_string()));
}

#[test]
fn strings_can_be_cut_short() {
    let mut rd: &[u8] = &[3, b'a', b'b'];
    assert_eq!(decode::string(&mut rd), Err(DecodeError::UnexpectedEof));
}

fn auth_bytes(m: &AuthMessage) -> Vec<u8> {
    let mut w = Vec::new();
    encode::auth(&mut w, m).unwrap();
    w
}

#[test]
fn auth_has_exact_bytes() {
    let nonce = [1, 2, 3, 4, 5, 6, 7, 250];
    assert_eq!(
        auth_bytes(&AuthMessage::Hello { user: ClientId(ID), nonce }),
        joined(&[&[0], &ID_BYTES, &[8], &nonce])
    );
    assert_eq!(
        auth_bytes(&AuthMessage::Nonce { server: ServerId(ID), nonce }),
        joined(&[&[1], &ID_BYTES, &[8], &nonce])
    );
    let response = [255u8; 16];
    assert_eq!(
        auth_bytes(&AuthMessage::Auth { response }),
        joined(&[&[2, 16], &response])
    );
}

#[test]
fn nonces_are_written_as_they_are() {
    let nonce = [0, 250, 251, 252, 253, 254, 255, 1];
    let hello = AuthMessage::Hello { user: ClientId(ID), nonce };
    let bytes = auth_bytes(&hello);
    assert_eq!(bytes, joined(&[&[0], &ID_BYTES, &[8], &nonce]));
    let mut rd: &[u8] = &bytes;
    assert_eq!(decode::auth(&mut rd), Ok(hello));
    assert!(rd.is_empty());
}

#[test]
fn auth_comes_back() {
    let nonce = [9, 8, 7, 6, 5, 4, 3, 2];
    for m in [
        AuthMessage::Hello { user: ClientId(ID), nonce },
        AuthMessage::Nonce { server: ServerId(ID), nonce },
        AuthMessage::Auth { response: [200; 16] },
    ] {
        let mut bytes = auth_bytes(&m);
        bytes.push(77);
        let mut rd: &[u8] = &bytes;
        assert_eq!(decode::auth(&mut rd), Ok(m));
        assert_eq!(rd, &[77]);
    }
}

#[test]
fn auth_can_be_malformed() {
    let mut rd: &[u8] = &[3];
    assert_eq!(decode::auth(&mut rd), Err(DecodeError::InvalidTag));
    let mut rd: &[u8] = &[];
    assert_eq!(decode::auth(&mut rd), Err(DecodeError::UnexpectedEof));
    let mut rd: &[u8] = &[2, 16, 1, 2, 3];
    assert_eq!(decode::auth(&mut rd), Err(DecodeError::UnexpectedEof));
    let mut rd: &[u8] = &[2, 3, 1, 2, 3];
    assert_eq!(decode::auth(&mut rd), Err(DecodeError::InvalidLength));
    let bytes = joined(&[&[0], &ID_BYTES, &[9, 1, 2, 3, 4, 5, 6, 7, 8, 9]]);
    let mut rd: &[u8] = &bytes;
    assert_eq!(decode::auth(&mut rd), Err(DecodeError::InvalidLength));
}

fn client_bytes(m: &ClientMessage) -> Vec<u8> {
    let mut w = Vec::new();
    encode::client(&mut w, m).unwrap();
    w
}

#[test]
fn client_messages_have_exact_bytes() {
    let text = ClientMessage::Text { dest: ClientId(ID), content: "hi".to_string() };
    assert_eq!(client_bytes(&text), joined(&[&[0], &ID_BYTES, &[2, b'h', b'i']]));
    let mtext = ClientMessage::MText {
        dest: vec![ClientId(ID), ClientId(5)],
        content: "hi".to_string(),
    };
    assert_eq!(
        client_bytes(&mtext),
        joined(&[&[1, 2], &ID_BYTES, &id_bytes(5), &[2, b'h', b'i']])
    );
}

#[test]
fn client_messages_come_back() {
    for m in [
        ClientMessage::Text { dest: ClientId(ID), content: "hello".to_string() },
        ClientMessage::MText { dest: vec![], content: String::new() },
        ClientMessage::MText { dest: vec![ClientId(1), ClientId(2)], content: "x".to_string() },
    ] {
        let mut bytes = client_bytes(&m);
        bytes.push(9);
        let mut rd: &[u8] = &bytes;
        assert_eq!(decode::client(&mut rd), Ok(m));
        assert_eq!(rd, &[9]);
    }
}

#[test]
fn client_messages_can_be_malformed() {
    let mut rd: &[u8] = &[2];
    assert_eq!(decode::client(&mut rd), Err(DecodeError::InvalidTag));
    let mut rd: &[u8] = &[1, 2, 16];
    assert_eq!(decode::client(&mut rd), Err(DecodeError::UnexpectedEof));
}

fn message() -> FullyQualifiedMessage {
    FullyQualifiedMessage {
        src: ClientId(1),
        srcsrv: ServerId(2),
        dsts: vec![(ClientId(3), ServerId(4)), (ClientId(5), ServerId(6))],
        content: "hey".to_string(),
    }
}

fn message_bytes() -> Vec<u8> {
    joined(&[
        &[1],
        &id_bytes(1),
        &id_bytes(2),
        &[2],
        &id_bytes(3),
        &id_bytes(4),
        &id_bytes(5),
        &id_bytes(6),
        &[3, b'h', b'e', b'y'],
    ])
}

fn server_bytes(m: &ServerMessage) -> Vec<u8> {
    let mut w = Vec::new();
    encode::server(&mut w, m).unwrap();
    w
}

#[test]
fn server_messages_have_exact_bytes() {
    assert_eq!(server_bytes(&ServerMessage::Message(message())), message_bytes());
    let announce = ServerMessage::Announce {
        route: vec![ServerId(7), ServerId(8)],
        clients: HashMap::from([(9, "bob".to_string())]),
    };
    assert_eq!(
        server_bytes(&announce),
        joined(&[
            &[0, 2],
            &id_bytes(7),
            &id_bytes(8),
            &[1],
            &id_bytes(9),
            &[3, b'b', b'o', b'b'],
        ])
    );
}

#[test]
fn server_messages_come_back() {
    let clients: HashMap<u128, String> =
        (0..20u128).map(|i| (i * i, format!("client {}", i))).collect();
    for m in [
        ServerMessage::Message(message()),
        ServerMessage::Announce { route: vec![], clients: HashMap::new() },
        ServerMessage::Announce { route: vec![ServerId(1), ServerId(2)], clients },
    ] {
        let mut bytes = server_bytes(&m);
        bytes.push(9);
        let mut rd: &[u8] = &bytes;
        assert_eq!(decode::server(&mut rd), Ok(m));
        assert_eq!(rd, &[9]);
    }
}

#[test]
fn the_later_of_two_names_counts() {
    let bytes = joined(&[&[0, 0, 2], &id_bytes(4), &[1, b'a'], &id_bytes(4), &[1, b'b']]);
    let mut rd: &[u8] = &bytes;
    assert_eq!(
        decode::server(&mut rd),
        Ok(ServerMessage::Announce {
            route: vec![],
            clients: HashMap::from([(4, "b".to_string())]),
        })
    );
}

#[test]
fn server_messages_can_be_malformed() {
    let mut rd: &[u8] = &[2];
    assert_eq!(decode::server(&mut rd), Err(DecodeError::InvalidTag));
    let bytes = message_bytes();
    for n in 0..bytes.len() {
        let mut rd: &[u8] = &bytes[..n];
        assert_eq!(decode::server(&mut rd), Err(DecodeError::UnexpectedEof));
    }
}

fn replies() -> Vec<ClientReply> {
    vec![
        ClientReply::Delivered,
        ClientReply::Error(ClientError::WorkProofError),
        ClientReply::Error(ClientError::UnknownClient),
        ClientReply::Error(ClientError::SequenceError),
        ClientReply::Error(ClientError::BoxFull(ClientId(ID))),
        ClientReply::Error(ClientError::InternalError),
        ClientReply::Delayed,
        ClientReply::Transfer(ServerId(3), ServerMessage::Message(message())),
    ]
}

fn replies_bytes() -> Vec<u8> {
    joined(&[
        &[0, 1, 0, 1, 1, 1, 2, 1, 3],
        &ID_BYTES,
        &[1, 4, 2, 3],
        &id_bytes(3),
        &message_bytes(),
    ])
}

#[test]
fn client_replies_have_exact_bytes() {
    let mut w = Vec::new();
    encode::client_replies(&mut w, &replies()).unwrap();
    assert_eq!(w, replies_bytes());
    let mut w = Vec::new();
    for reply in &replies() {
        encode::client_reply(&mut w, reply).unwrap();
    }
    assert_eq!(w, replies_bytes());
}

#[test]
fn client_replies_come_back_one_by_one() {
    let bytes = replies_bytes();
    let mut rd: &[u8] = &bytes;
    for reply in replies() {
        assert_eq!(decode::client_reply(&mut rd), Ok(reply));
    }
    assert!(rd.is_empty());
    assert_eq!(decode::client_reply(&mut rd), Err(DecodeError::UnexpectedEof));
}

#[test]
fn client_replies_have_no_end_but_an_error() {
    let bytes = replies_bytes();
    let mut rd: &[u8] = &bytes;
    assert_eq!(decode::client_replies(&mut rd), Err(DecodeError::UnexpectedEof));
    let mut rd: &[u8] = &[0, 0, 4];
    assert_eq!(decode::client_replies(&mut rd), Err(DecodeError::InvalidTag));
    let mut rd: &[u8] = &[0, 1, 5];
    assert_eq!(decode::client_replies(&mut rd), Err(DecodeError::InvalidErrorTag));
}

#[test]
fn client_poll_replies_have_exact_bytes() {
    let mut w = Vec::new();
    let m = ClientPollReply::Message { src: ClientId(ID), content: "yo".to_string() };
    encode::client_poll_reply(&mut w, &m).unwrap();
    assert_eq!(w, joined(&[&[0], &ID_BYTES, &[2, b'y', b'o']]));
    let mut w = Vec::new();
    let m = ClientPollReply::DelayedError(DelayedError::UnknownRecipient(ClientId(ID)));
    encode::client_poll_reply(&mut w, &m).unwrap();
    assert_eq!(w, joined(&[&[1, 0], &ID_BYTES]));
    let mut w = Vec::new();
    encode::client_poll_reply(&mut w, &ClientPollReply::Nothing).unwrap();
    assert_eq!(w, vec![2]);
}

#[test]
fn client_poll_replies_come_back() {
    for m in [
        ClientPollReply::Message { src: ClientId(ID), content: "yo".to_string() },
        ClientPollReply::DelayedError(DelayedError::UnknownRecipient(ClientId(8))),
        ClientPollReply::Nothing,
    ] {
        let mut w = Vec::new();
        encode::client_poll_reply(&mut w, &m).unwrap();
        w.push(9);
        let mut rd: &[u8] = &w;
        assert_eq!(decode::client_poll_reply(&mut rd), Ok(m));
        assert_eq!(rd, &[9]);
    }
}

#[test]
fn client_poll_replies_can_be_malformed() {
    let mut rd: &[u8] = &[3];
    assert_eq!(decode::client_poll_reply(&mut rd), Err(DecodeError::InvalidTag));
    let mut rd: &[u8] = &[1, 1];
    assert_eq!(decode::client_poll_reply(&mut rd), Err(DecodeError::InvalidErrorTag));
    let mut rd: &[u8] = &[1];
    assert_eq!(decode::client_poll_reply(&mut rd), Err(DecodeError::UnexpectedEof));
}

#[test]
fn user_lists_have_exact_bytes() {
    let mut w = Vec::new();
    encode::userlist(&mut w, &HashMap::new()).unwrap();
    assert_eq!(w, vec![0]);
    let mut w = Vec::new();
    encode::userlist(&mut w, &HashMap::from([(ID, "al".to_string())])).unwrap();
    assert_eq!(w, joined(&[&[1], &ID_BYTES, &[2, b'a', b'l']]));
}

#[test]
fn user_lists_come_back() {
    let users: HashMap<u128, String> =
        (0..300u128).map(|i| (u128::MAX - i, format!("user {}", i))).collect();
    let mut w = Vec::new();
    encode::userlist(&mut w, &users).unwrap();
    w.push(9);
    let mut rd: &[u8] = &w;
    assert_eq!(decode::userlist(&mut rd), Ok(users));
    assert_eq!(rd, &[9]);
}

#[test]
fn client_queries_have_exact_bytes() {
    for (m, bytes) in [
        (ClientQuery::Register("bo".to_string()), vec![0, 2, b'b', b'o']),
        (
            ClientQuery::Message(ClientMessage::Text {
                dest: ClientId(ID),
                content: "a".to_string(),
            }),
            joined(&[&[1, 0], &ID_BYTES, &[1, b'a']]),
        ),
        (ClientQuery::Poll, vec![2]),
        (ClientQuery::ListUsers, vec![3]),
    ] {
        let mut w = Vec::new();
        encode::client_query(&mut w, &m).unwrap();
        assert_eq!(w, bytes);
        w.push(9);
        let mut rd: &[u8] = &w;
        assert_eq!(decode::client_query(&mut rd), Ok(m));
        assert_eq!(rd, &[9]);
    }
}

#[test]
fn client_queries_can_be_malformed() {
    let mut rd: &[u8] = &[4];
    assert_eq!(decode::client_query(&mut rd), Err(DecodeError::InvalidTag));
    let mut rd: &[u8] = &[1, 7];
    assert_eq!(decode::client_query(&mut rd), Err(DecodeError::InvalidTag));
}

#[test]
fn sequences_have_exact_bytes_and_come_back() {
    let m = Sequence { seqid: 300, src: ClientId(ID), workproof: 7, content: ClientQuery::Poll };
    let mut w = vec![1];
    encode::sequence(&mut w, &m, |w: &mut Vec<u8>, q: &ClientQuery| encode::client_query(w, q))
        .unwrap();
    assert_eq!(w, joined(&[&[1, 251, 44, 1], &ID_BYTES, &[7, 2]]));
    w.push(9);
    let mut rd: &[u8] = &w[1..];
    assert_eq!(
        decode::sequence(&mut rd, |rd: &mut &[u8]| decode::client_query(rd)),
        Ok(m)
    );
    assert_eq!(rd, &[9]);
}

#[test]
fn sequences_can_be_malformed() {
    let read = |bytes: &[u8]| {
        let mut rd: &[u8] = bytes;
        decode::sequence(&mut rd, |rd: &mut &[u8]| decode::client_query(rd))
    };
    assert_eq!(read(&[255]), Err(DecodeError::InvalidMarker));
    assert_eq!(read(&[1, 2, 3, 4]), Err(DecodeError::InvalidUuid));
    assert_eq!(read(&joined(&[&[1], &ID_BYTES, &[7]])), Err(DecodeError::UnexpectedEof));
    assert_eq!(read(&joined(&[&[1], &ID_BYTES, &[7, 9]])), Err(DecodeError::InvalidTag));
}

#[test]
fn added_bytes_do_not_change_a_message() {
    let bytes = message_bytes();
    for n in 0..bytes.len() {
        let mut short: &[u8] = &bytes[..n];
        assert_eq!(decode::server(&mut short), Err(DecodeError::UnexpectedEof));
    }
    let more = joined(&[&bytes, &[255, 255, 255]]);
    let mut rd: &[u8] = &more;
    assert_eq!(decode::server(&mut rd), Ok(ServerMessage::Message(message())));
    assert_eq!(rd, &[255, 255, 255]);
}

#[test]
fn joined_replies_are_written_one_after_the_other() {
    let all = replies();
    let mut whole = Vec::new();
    encode::client_replies(&mut whole, &all).unwrap();
    let mut parts = Vec::new();
    encode::client_replies(&mut parts, &all[..3]).unwrap();
    encode::client_replies(&mut parts, &all[3..]).unwrap();
    assert_eq!(parts, whole);
}
