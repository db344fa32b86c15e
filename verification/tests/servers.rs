//! What servers answer to clients and to other servers.
use chatproto::messages::{
    ClientError, ClientId, ClientMessage, ClientPollReply, ClientReply, FullyQualifiedMessage,
    Outgoing, Sequence, ServerId, ServerMessage, ServerReply,
};
use chatproto::solutions::{citrini_repplinger_vassoille, sample};
use std::collections::HashMap;

type Routing = citrini_repplinger_vassoille::Server<3>;
type Sample = sample::Server<3>;

const HERE: ServerId = ServerId(100);
const NEAR: ServerId = ServerId(101);
const FAR: ServerId = ServerId(102);
const ANN: ClientId = ClientId(1);
const BOB: ClientId = ClientId(2);
const ZOE: ClientId = ClientId(9);

fn text(dest: ClientId, content: &str) -> ClientMessage {
    ClientMessage::Text { dest, content: content.to_string() }
}

fn received(src: ClientId, content: &str) -> ClientPollReply {
    ClientPollReply::Message { src, content: content.to_string() }
}

fn announce(route: &[ServerId], clients: &[(ClientId, &str)]) -> ServerMessage {
    ServerMessage::Announce {
        route: route.to_vec(),
        clients: clients.iter().map(|(id, name)| (id.0, name.to_string())).collect(),
    }
}

fn qualified(
    src: ClientId,
    srcsrv: ServerId,
    dsts: &[(ClientId, ServerId)],
    content: &str,
) -> FullyQualifiedMessage {
    FullyQualifiedMessage { src, srcsrv, dsts: dsts.to_vec(), content: content.to_string() }
}

fn request(src: ClientId, seqid: u128) -> Sequence<&'static str> {
    Sequence { seqid, src, workproof: 0, content: "content" }
}

fn is_random(id: ClientId) -> bool {
    (id.0 >> 76) & 0xf == 4 && (id.0 >> 62) & 0x3 == 2
}

#[test]
fn citrini_repplinger_vassoille_tester() {
    let mut s = Routing::new(HERE);
    let ann = s.register_local_client("ann".to_string());
    let bob = s.register_local_client("bob".to_string());
    assert!(is_random(ann) && is_random(bob));
    assert_ne!(ann, bob);
    assert_eq!(
        s.list_users(),
        HashMap::from([(ann.0, "ann".to_string()), (bob.0, "bob".to_string())])
    );

    let holds = |_: &ClientId, _: u128| true;
    let fails = |_: &ClientId, _: u128| false;
    assert_eq!(
        s.handle_sequenced_message(request(ann, 1), fails),
        Err(ClientError::WorkProofError)
    );
    assert_eq!(
        s.handle_sequenced_message(request(ZOE, 1), holds),
        Err(ClientError::UnknownClient)
    );
    assert_eq!(s.handle_sequenced_message(request(ann, 1), holds), Ok("content"));
    assert_eq!(
        s.handle_sequenced_message(request(ann, 1), holds),
        Err(ClientError::SequenceError)
    );

    assert_eq!(s.client_poll(bob), ClientPollReply::Nothing);
    assert_eq!(s.handle_client_message(ann, text(bob, "hi")), vec![ClientReply::Delivered]);
    assert_eq!(s.client_poll(bob), received(ann, "hi"));
    assert_eq!(s.client_poll(bob), ClientPollReply::Nothing);

    assert_eq!(s.handle_client_message(ann, text(ZOE, "later")), vec![ClientReply::Delayed]);
    assert_eq!(s.handle_server_message(announce(&[], &[(ZOE, "zoe")])), ServerReply::EmptyRoute);
    assert_eq!(s.route_to(FAR), None);
    let later = qualified(ann, HERE, &[(ZOE, FAR)], "later");
    assert_eq!(
        s.handle_server_message(announce(&[FAR, NEAR], &[(ZOE, "zoe")])),
        ServerReply::Outgoing(vec![Outgoing { nexthop: NEAR, message: later }])
    );
    assert_eq!(s.route_to(FAR), Some(vec![HERE, NEAR, FAR]));
    assert_eq!(s.list_users().get(&ZOE.0), Some(&"zoe".to_string()));
    assert_eq!(
        s.handle_client_message(ann, text(ZOE, "now")),
        vec![ClientReply::Transfer(
            NEAR,
            ServerMessage::Message(qualified(ann, HERE, &[(ZOE, FAR)], "now"))
        )]
    );
}

#[test]
fn sample_tester() {
    let mut s = Sample::new(HERE);
    let ann = s.register_local_client("ann".to_string());
    let bob = s.register_local_client("bob".to_string());
    assert!(is_random(ann) && is_random(bob));
    assert_ne!(ann, bob);
    assert_eq!(
        s.list_users(),
        HashMap::from([(ann.0, "ann".to_string()), (bob.0, "bob".to_string())])
    );

    let holds = |_: &ClientId, _: u128| true;
    let fails = |_: &ClientId, _: u128| false;
    assert_eq!(
        s.handle_sequenced_message(request(ann, 1), fails),
        Err(ClientError::WorkProofError)
    );
    assert_eq!(
        s.handle_sequenced_message(request(ZOE, 1), holds),
        Err(ClientError::UnknownClient)
    );
    assert_eq!(s.handle_sequenced_message(request(ann, 1), holds), Ok("content"));
    assert_eq!(
        s.handle_sequenced_message(request(ann, 1), holds),
        Err(ClientError::SequenceError)
    );

    assert_eq!(s.client_poll(bob), ClientPollReply::Nothing);
    assert_eq!(s.handle_client_message(ann, text(bob, "hi")), vec![ClientReply::Delivered]);
    assert_eq!(s.client_poll(bob), received(ann, "hi"));
    assert_eq!(s.client_poll(bob), ClientPollReply::Nothing);

    assert_eq!(s.handle_client_message(ann, text(ZOE, "later")), vec![ClientReply::Delayed]);
    assert_eq!(s.handle_server_message(announce(&[], &[(ZOE, "zoe")])), ServerReply::EmptyRoute);
    assert_eq!(s.route_to(FAR), None);
    let later = qualified(ann, HERE, &[(ZOE, FAR)], "later");
    assert_eq!(
        s.handle_server_message(announce(&[FAR, NEAR], &[(ZOE, "zoe")])),
        ServerReply::Outgoing(vec![Outgoing { nexthop: NEAR, message: later }])
    );
    assert_eq!(s.route_to(FAR), Some(vec![FAR, NEAR]));
    assert_eq!(
        s.handle_client_message(ann, text(ZOE, "now")),
        vec![ClientReply::Transfer(
            NEAR,
            ServerMessage::Message(qualified(ann, HERE, &[(ZOE, FAR)], "now"))
        )]
    );
    assert_eq!(s.list_users().len(), 2);
}

fn routing() -> Routing {
    let mut s = Routing::new(HERE);
    s.register_client(ANN, "ann".to_string());
    s.register_client(BOB, "bob".to_string());
    s
}

fn sampled() -> Sample {
    let mut s = Sample::new(HERE);
    s.register_client(ANN, "ann".to_string());
    s.register_client(BOB, "bob".to_string());
    s
}

#[test]
fn a_routing_server_starts_empty() {
    let mut s = Routing::new(HERE);
    assert!(s.list_users().is_empty());
    assert_eq!(s.route_to(HERE), None);
    assert_eq!(s.get_remote_client_server(ZOE), None);
    assert_eq!(s.client_poll(ANN), ClientPollReply::Nothing);
}

#[test]
fn a_mailbox_is_a_queue_with_a_limit() {
    let mut s = routing();
    for content in ["one", "two", "three"] {
        assert_eq!(
            s.handle_text_message(ANN, BOB, content.to_string()),
            ClientReply::Delivered
        );
    }
    assert_eq!(
        s.handle_text_message(ANN, BOB, "four".to_string()),
        ClientReply::Error(ClientError::BoxFull(BOB))
    );
    assert_eq!(s.handle_text_message(BOB, ANN, "other".to_string()), ClientReply::Delivered);
    assert_eq!(s.client_poll(BOB), received(ANN, "one"));
    assert_eq!(s.handle_text_message(BOB, BOB, "five".to_string()), ClientReply::Delivered);
    assert_eq!(s.client_poll(BOB), received(ANN, "two"));
    assert_eq!(s.client_poll(BOB), received(ANN, "three"));
    assert_eq!(s.client_poll(BOB), received(BOB, "five"));
    assert_eq!(s.client_poll(BOB), ClientPollReply::Nothing);
    assert_eq!(s.client_poll(ANN), received(BOB, "other"));
}

#[test]
fn a_sample_mailbox_is_a_queue_with_a_limit() {
    let mut s = sampled();
    for content in ["one", "two", "three"] {
        assert_eq!(
            s.handle_text_message(ANN, BOB, content.to_string()),
            ClientReply::Delivered
        );
    }
    assert_eq!(
        s.handle_text_message(ANN, BOB, "four".to_string()),
        ClientReply::Error(ClientError::BoxFull(BOB))
    );
    assert_eq!(s.client_poll(BOB), received(ANN, "one"));
    assert_eq!(s.client_poll(BOB), received(ANN, "two"));
    assert_eq!(s.client_poll(BOB), received(ANN, "three"));
    assert_eq!(s.client_poll(BOB), ClientPollReply::Nothing);
    assert_eq!(s.client_poll(ZOE), ClientPollReply::Nothing);
}

#[test]
fn a_mailbox_without_room_takes_nothing() {
    let mut s = citrini_repplinger_vassoille::Server::<0>::new(HERE);
    s.register_client(ANN, "ann".to_string());
    assert_eq!(
        s.handle_text_message(BOB, ANN, "hi".to_string()),
        ClientReply::Error(ClientError::BoxFull(ANN))
    );
}

#[test]
fn numbers_increase() {
    let mut s = routing();
    assert_eq!(s.handle_checked_message(request(ANN, 0), true), Err(ClientError::SequenceError));
    assert_eq!(s.handle_checked_message(request(ANN, 5), true), Ok("content"));
    assert_eq!(s.handle_checked_message(request(ANN, 5), true), Err(ClientError::SequenceError));
    assert_eq!(s.handle_checked_message(request(ANN, 4), true), Err(ClientError::SequenceError));
    assert_eq!(s.handle_checked_message(request(ANN, 9), false), Err(ClientError::WorkProofError));
    assert_eq!(s.handle_checked_message(request(BOB, 1), true), Ok("content"));
    s.register_client(ANN, "another".to_string());
    assert_eq!(s.handle_checked_message(request(ANN, 5), true), Err(ClientError::SequenceError));
    assert_eq!(s.handle_checked_message(request(ANN, 6), true), Ok("content"));
    assert_eq!(s.handle_checked_message(request(ZOE, 6), true), Err(ClientError::UnknownClient));
    assert_eq!(s.handle_checked_message(request(ZOE, 6), false), Err(ClientError::WorkProofError));
}

#[test]
fn numbers_increase_on_a_sample_server() {
    let mut s = sampled();
    assert_eq!(s.handle_checked_message(request(ANN, 5), true), Ok("content"));
    assert_eq!(s.handle_checked_message(request(ANN, 5), true), Err(ClientError::SequenceError));
    assert_eq!(s.handle_checked_message(request(ANN, 6), true), Ok("content"));
    assert_eq!(s.handle_checked_message(request(ZOE, 6), true), Err(ClientError::UnknownClient));
}

#[test]
fn numbers_are_compared_whole() {
    let wide = 0x1_0000_0000_0000_0006u128;
    let mut s = routing();
    assert_eq!(s.handle_checked_message(request(ANN, wide), true), Ok("content"));
    assert_eq!(s.handle_checked_message(request(ANN, 7), true), Err(ClientError::SequenceError));
    assert_eq!(s.handle_checked_message(request(ANN, wide), true), Err(ClientError::SequenceError));
    assert_eq!(s.handle_checked_message(request(ANN, wide + 1), true), Ok("content"));
    assert_eq!(s.handle_checked_message(request(ANN, u128::MAX), true), Ok("content"));
    let mut s = sampled();
    assert_eq!(s.handle_checked_message(request(ANN, wide), true), Ok("content"));
    assert_eq!(s.handle_checked_message(request(ANN, 7), true), Err(ClientError::SequenceError));
}

#[test]
fn the_proof_of_work_of_the_client_is_verified() {
    let mut s = routing();
    let sequence = Sequence { seqid: 1, src: BOB, workproof: 77, content: 1u8 };
    assert_eq!(
        s.handle_sequenced_message(sequence, |id: &ClientId, proof: u128| *id == BOB && proof == 77),
        Ok(1)
    );
    let sequence = Sequence { seqid: 2, src: BOB, workproof: 78, content: 1u8 };
    assert_eq!(
        s.handle_sequenced_message(sequence, |id: &ClientId, proof: u128| *id == BOB && proof == 77),
        Err(ClientError::WorkProofError)
    );
}

#[test]
fn each_destination_gets_a_reply() {
    let mut s = routing();
    s.handle_server_message(announce(&[FAR], &[(ClientId(7), "gus")]));
    let msg = ClientMessage::MText {
        dest: vec![BOB, ZOE, ClientId(7), BOB],
        content: "all".to_string(),
    };
    assert_eq!(
        s.handle_client_message(ANN, msg),
        vec![
            ClientReply::Delivered,
            ClientReply::Delayed,
            ClientReply::Transfer(
                FAR,
                ServerMessage::Message(qualified(ANN, HERE, &[(ClientId(7), FAR)], "all"))
            ),
            ClientReply::Delivered,
        ]
    );
    assert_eq!(s.client_poll(BOB), received(ANN, "all"));
    assert_eq!(s.client_poll(BOB), received(ANN, "all"));
    let nobody = ClientMessage::MText { dest: vec![], content: "all".to_string() };
    assert_eq!(s.handle_client_message(ANN, nobody), vec![]);
}

#[test]
fn each_destination_gets_a_reply_from_a_sample_server() {
    let mut s = sampled();
    let msg = ClientMessage::MText { dest: vec![BOB, ZOE], content: "all".to_string() };
    assert_eq!(
        s.handle_client_message(ANN, msg),
        vec![ClientReply::Delivered, ClientReply::Delayed]
    );
    assert_eq!(s.client_poll(BOB), received(ANN, "all"));
}

#[test]
fn the_first_route_to_a_server_is_used() {
    let mut s = routing();
    s.handle_server_message(announce(&[FAR, ServerId(5), NEAR], &[]));
    s.handle_server_message(announce(&[FAR], &[]));
    assert_eq!(s.route_to(FAR), Some(vec![HERE, NEAR, ServerId(5), FAR]));
    assert_eq!(s.route_to(NEAR), Some(vec![HERE, NEAR]));
    assert_eq!(s.route_to(ServerId(5)), Some(vec![HERE, NEAR, ServerId(5)]));
    assert_eq!(s.route_to(ServerId(77)), None);
}

#[test]
fn the_shortest_route_is_found() {
    let routes = vec![
        vec![FAR, ServerId(5), NEAR],
        vec![FAR, NEAR],
        vec![NEAR, FAR],
        vec![ServerId(6)],
    ];
    assert_eq!(sample::shortest_route(&routes, FAR), Some(1));
    assert_eq!(sample::shortest_route(&routes, ServerId(5)), Some(0));
    assert_eq!(sample::shortest_route(&routes, ServerId(6)), Some(3));
    assert_eq!(sample::shortest_route(&routes, ServerId(77)), None);
    assert_eq!(sample::shortest_route(&vec![], FAR), None);
}

#[test]
fn a_way_ends_where_its_target_comes_first() {
    let mut s = routing();
    s.handle_server_message(announce(&[NEAR, FAR, NEAR], &[]));
    assert_eq!(s.route_to(NEAR), Some(vec![HERE, NEAR]));
    assert_eq!(s.route_to(FAR), Some(vec![HERE, NEAR, FAR]));
}

#[test]
fn announced_routes_are_used_by_a_sample_server() {
    let mut s = sampled();
    s.handle_server_message(announce(&[FAR, ServerId(5), NEAR], &[]));
    s.handle_server_message(announce(&[FAR, NEAR], &[]));
    s.handle_server_message(announce(&[NEAR, FAR], &[]));
    assert_eq!(s.route_to(FAR), Some(vec![FAR, NEAR]));
    assert_eq!(s.route_to(ServerId(5)), Some(vec![FAR, ServerId(5), NEAR]));
    assert_eq!(s.route_to(ServerId(77)), None);
}

#[test]
fn texts_wait_until_their_destination_is_announced() {
    let mut s = routing();
    assert_eq!(s.handle_text_message(ANN, ZOE, "one".to_string()), ClientReply::Delayed);
    assert_eq!(s.handle_text_message(BOB, ClientId(8), "x".to_string()), ClientReply::Delayed);
    assert_eq!(s.handle_text_message(BOB, ZOE, "two".to_string()), ClientReply::Delayed);
    assert_eq!(
        s.handle_server_message(announce(&[NEAR], &[(ClientId(7), "gus")])),
        ServerReply::Outgoing(vec![])
    );
    assert_eq!(
        s.handle_server_message(announce(&[FAR, NEAR], &[(ZOE, "zoe")])),
        ServerReply::Outgoing(vec![
            Outgoing { nexthop: NEAR, message: qualified(ANN, HERE, &[(ZOE, NEAR)], "one") },
            Outgoing { nexthop: NEAR, message: qualified(BOB, HERE, &[(ZOE, NEAR)], "two") },
        ])
    );
}

#[test]
fn remote_clients_are_known_by_the_end_of_their_route() {
    let mut s = routing();
    s.handle_server_message(announce(&[FAR, NEAR], &[(ZOE, "zoe")]));
    assert_eq!(s.get_remote_client_server(ZOE), Some(NEAR));
    s.handle_server_message(announce(&[NEAR, FAR], &[(ZOE, "zo")]));
    assert_eq!(s.get_remote_client_server(ZOE), Some(FAR));
    assert_eq!(s.list_users().get(&ZOE.0), Some(&"zo".to_string()));
    assert_eq!(s.list_users().len(), 3);
}

#[test]
fn a_remote_name_comes_before_a_local_one() {
    let mut s = routing();
    s.handle_server_message(announce(&[FAR], &[(ANN, "other ann")]));
    assert_eq!(s.list_users().get(&ANN.0), Some(&"other ann".to_string()));
    assert_eq!(s.handle_text_message(BOB, ANN, "hi".to_string()), ClientReply::Delivered);
}

#[test]
fn texts_from_servers_are_forwarded() {
    let mut s = routing();
    s.handle_server_message(announce(&[FAR, NEAR], &[]));
    let msg = qualified(ZOE, ServerId(50), &[(ClientId(8), NEAR), (ClientId(7), FAR)], "pass");
    assert!(s.can_handle(&ServerMessage::Message(qualified(
        ZOE,
        ServerId(50),
        &[(ClientId(8), NEAR)],
        "pass"
    ))));
    assert_eq!(
        s.handle_server_message(ServerMessage::Message(msg)),
        ServerReply::Outgoing(vec![Outgoing {
            nexthop: FAR,
            message: qualified(
                ZOE,
                ServerId(50),
                &[(ClientId(8), NEAR), (ClientId(7), FAR)],
                "pass"
            ),
        }])
    );
}

#[test]
fn texts_from_servers_are_delivered() {
    let mut s = routing();
    let msg = ServerMessage::Message(qualified(ZOE, FAR, &[(ANN, HERE), (BOB, HERE)], "hello"));
    assert!(s.can_handle(&msg));
    assert_eq!(s.handle_server_message(msg), ServerReply::Outgoing(vec![]));
    assert_eq!(s.client_poll(ANN), received(ZOE, "hello"));
    assert_eq!(s.client_poll(BOB), received(ZOE, "hello"));
}

#[test]
fn local_texts_are_delivered_though_there_is_a_way() {
    let mut s = routing();
    s.handle_server_message(announce(&[NEAR, HERE], &[]));
    let msg = ServerMessage::Message(qualified(ZOE, FAR, &[(ANN, HERE)], "hello"));
    assert_eq!(s.handle_server_message(msg), ServerReply::Outgoing(vec![]));
    assert_eq!(s.client_poll(ANN), received(ZOE, "hello"));
}

#[test]
fn texts_from_servers_are_delivered_by_a_sample_server() {
    let mut s = sampled();
    let msg = ServerMessage::Message(qualified(ZOE, FAR, &[(ANN, HERE), (ZOE, FAR)], "hello"));
    assert_eq!(s.handle_server_message(msg), ServerReply::Outgoing(vec![]));
    assert_eq!(s.client_poll(ANN), received(ZOE, "hello"));
    assert_eq!(s.client_poll(BOB), ClientPollReply::Nothing);
}

#[test]
fn some_texts_from_servers_cannot_be_handled() {
    let s = routing();
    assert!(!s.can_handle(&ServerMessage::Message(qualified(ZOE, FAR, &[], "x"))));
    assert!(!s.can_handle(&ServerMessage::Message(qualified(ZOE, FAR, &[(ZOE, FAR)], "x"))));
    assert!(!s.can_handle(&ServerMessage::Message(qualified(
        ZOE,
        FAR,
        &[(ANN, HERE), (ZOE, FAR)],
        "x"
    ))));
    assert!(s.can_handle(&announce(&[], &[])));
}

#[test]
fn an_empty_route_changes_nothing() {
    let mut s = routing();
    assert_eq!(s.handle_server_message(announce(&[], &[(ZOE, "zoe")])), ServerReply::EmptyRoute);
    assert_eq!(s.get_remote_client_server(ZOE), None);
    assert_eq!(s.list_users().len(), 2);
    let mut s = sampled();
    assert_eq!(s.handle_server_message(announce(&[], &[(ZOE, "zoe")])), ServerReply::EmptyRoute);
    assert_eq!(s.list_users().len(), 2);
}

#[test]
fn announced_clients_and_ways_stay_known() {
    let mut s = routing();
    s.handle_server_message(announce(&[FAR, NEAR], &[(ZOE, "zoe")]));
    let way = s.route_to(FAR);
    s.register_client(ClientId(4), "dan".to_string());
    s.handle_client_message(ANN, text(ClientId(44), "who"));
    s.handle_server_message(announce(&[FAR], &[(ClientId(5), "eve")]));
    s.handle_server_message(announce(&[], &[]));
    s.client_poll(ANN);
    assert_eq!(s.route_to(FAR), way);
    assert_eq!(
        s.handle_text_message(ANN, ZOE, "hi".to_string()),
        ClientReply::Transfer(
            NEAR,
            ServerMessage::Message(qualified(ANN, HERE, &[(ZOE, FAR)], "hi"))
        )
    );
}

#[test]
fn a_stored_text_goes_out_once() {
    let mut s = routing();
    s.handle_text_message(ANN, ZOE, "hi".to_string());
    s.handle_text_message(ANN, ClientId(8), "wait".to_string());
    let sent = |dest: ClientId, content: &str| Outgoing {
        nexthop: FAR,
        message: qualified(ANN, HERE, &[(dest, FAR)], content),
    };
    assert_eq!(
        s.handle_server_message(announce(&[FAR], &[(ZOE, "zoe")])),
        ServerReply::Outgoing(vec![sent(ZOE, "hi")])
    );
    assert_eq!(
        s.handle_server_message(announce(&[NEAR], &[])),
        ServerReply::Outgoing(vec![])
    );
    assert_eq!(
        s.handle_server_message(announce(&[FAR], &[(ZOE, "zoe"), (ClientId(8), "hal")])),
        ServerReply::Outgoing(vec![sent(ClientId(8), "wait")])
    );
}

#[test]
fn texts_from_servers_respect_full_mailboxes() {
    let mut s = routing();
    for content in ["one", "two", "three"] {
        s.handle_text_message(BOB, ANN, content.to_string());
    }
    let msg = ServerMessage::Message(qualified(ZOE, FAR, &[(ANN, HERE), (BOB, HERE)], "x"));
    assert_eq!(s.handle_server_message(msg), ServerReply::Outgoing(vec![]));
    assert_eq!(s.client_poll(BOB), received(ZOE, "x"));
    assert_eq!(s.client_poll(ANN), received(BOB, "one"));
    assert_eq!(s.client_poll(ANN), received(BOB, "two"));
    assert_eq!(s.client_poll(ANN), received(BOB, "three"));
    assert_eq!(s.client_poll(ANN), ClientPollReply::Nothing);
}

#[test]
fn a_stored_text_goes_out_once_from_a_sample_server() {
    let mut s = sampled();
    s.handle_text_message(ANN, ZOE, "hi".to_string());
    s.handle_text_message(BOB, ClientId(8), "wait".to_string());
    assert_eq!(
        s.handle_server_message(announce(&[FAR, NEAR], &[(ZOE, "zoe")])),
        ServerReply::Outgoing(vec![Outgoing {
            nexthop: NEAR,
            message: qualified(ANN, HERE, &[(ZOE, FAR)], "hi"),
        }])
    );
    assert_eq!(s.handle_server_message(announce(&[FAR], &[])), ServerReply::Outgoing(vec![]));
    assert_eq!(
        s.handle_server_message(announce(&[FAR], &[(ZOE, "zoe"), (ClientId(8), "hal")])),
        ServerReply::Outgoing(vec![Outgoing {
            nexthop: FAR,
            message: qualified(BOB, HERE, &[(ClientId(8), FAR)], "wait"),
        }])
    );
}

#[test]
fn a_sample_server_transfers_over_the_shortest_route() {
    let mut s = sampled();
    s.handle_server_message(announce(&[FAR, ServerId(5), NEAR], &[(ZOE, "zoe")]));
    let transferred = |dst: ServerId| {
        ClientReply::Transfer(
            NEAR,
            ServerMessage::Message(qualified(ANN, HERE, &[(ZOE, dst)], "hi")),
        )
    };
    assert_eq!(s.handle_text_message(ANN, ZOE, "hi".to_string()), transferred(FAR));
    s.handle_server_message(announce(&[ServerId(6), NEAR], &[]));
    assert_eq!(s.handle_text_message(ANN, ZOE, "hi".to_string()), transferred(ServerId(6)));
}

#[test]
fn texts_from_servers_are_forwarded_by_a_sample_server() {
    let mut s = sampled();
    let message = || ServerMessage::Message(qualified(ZOE, FAR, &[(ClientId(8), NEAR)], "pass"));
    assert_eq!(s.handle_server_message(message()), ServerReply::Outgoing(vec![]));
    s.handle_server_message(announce(&[FAR, ServerId(5), NEAR], &[]));
    s.handle_server_message(announce(&[ServerId(6), NEAR], &[]));
    assert_eq!(
        s.handle_server_message(message()),
        ServerReply::Outgoing(vec![Outgoing {
            nexthop: ServerId(6),
            message: qualified(ZOE, FAR, &[(ClientId(8), NEAR)], "pass"),
        }])
    );
    let local = ServerMessage::Message(qualified(ZOE, FAR, &[(ANN, NEAR)], "hello"));
    assert_eq!(s.handle_server_message(local), ServerReply::Outgoing(vec![]));
    assert_eq!(s.client_poll(ANN), received(ZOE, "hello"));
    let nobody = ServerMessage::Message(qualified(ZOE, FAR, &[], "hello"));
    assert_eq!(s.handle_server_message(nobody), ServerReply::Outgoing(vec![]));
}

#[test]
fn listed_users_stay_listed() {
    let mut s = routing();
    s.handle_server_message(announce(&[FAR], &[(ZOE, "zoe")]));
    s.handle_server_message(announce(&[NEAR], &[(ClientId(8), "hal")]));
    s.handle_client_message(ANN, text(ClientId(44), "who"));
    s.client_poll(ANN);
    let users = s.list_users();
    for id in [ANN, BOB, ZOE, ClientId(8)] {
        assert!(users.contains_key(&id.0));
    }
    assert_eq!(users.len(), 4);
}
