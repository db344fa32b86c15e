//! What servers share: registered clients, mailboxes and hash maps.
use chatproto::messages::{ClientError, ClientId, ClientPollReply, Sequence, ServerId};
use chatproto::solutions::registry;
use chatproto::solutions::registry::{Client, Delivery};
use chatproto::walk;
use std::collections::HashMap;

fn clients() -> Vec<Client> {
    let mut clients = Vec::new();
    registry::add_client(&mut clients, ClientId(1), "ann".to_string());
    registry::add_client(&mut clients, ClientId(2), "bob".to_string());
    registry::add_client(&mut clients, ClientId(1), "ann again".to_string());
    clients
}

#[test]
fn the_first_client_with_an_identifier_is_found() {
    let clients = clients();
    assert_eq!(registry::find(&clients, ClientId(1)), Some(0));
    assert_eq!(registry::find(&clients, ClientId(2)), Some(1));
    assert_eq!(registry::find(&clients, ClientId(3)), None);
}

#[test]
fn the_last_name_of_an_identifier_is_listed() {
    assert_eq!(
        registry::users(&clients()),
        HashMap::from([(1, "ann again".to_string()), (2, "bob".to_string())])
    );
}

#[test]
fn requests_are_accepted_or_refused() {
    let mut clients = clients();
    assert_eq!(
        registry::accept(&mut clients, ClientId(1), 3, false),
        Some(ClientError::WorkProofError)
    );
    assert_eq!(
        registry::accept(&mut clients, ClientId(3), 3, true),
        Some(ClientError::UnknownClient)
    );
    assert_eq!(registry::accept(&mut clients, ClientId(1), 3, true), None);
    assert_eq!(clients[0].last_seen, 3);
    assert_eq!(clients[2].last_seen, 0);
    assert_eq!(
        registry::accept(&mut clients, ClientId(1), 3, true),
        Some(ClientError::SequenceError)
    );
    let sequence = Sequence { seqid: 4, src: ClientId(1), workproof: 0, content: 'c' };
    assert_eq!(registry::open_request(&mut clients, sequence, true), Ok('c'));
    let sequence = Sequence { seqid: 4, src: ClientId(1), workproof: 0, content: 'c' };
    assert_eq!(
        registry::open_request(&mut clients, sequence, true),
        Err(ClientError::SequenceError)
    );
}

#[test]
fn texts_go_into_mailboxes() {
    let mut clients = clients();
    let deliver = |clients: &mut Vec<Client>, dest| {
        registry::deliver(clients, 1, ClientId(9), dest, "hi".to_string())
    };
    assert_eq!(deliver(&mut clients, ClientId(3)), Delivery::NotLocal);
    assert_eq!(deliver(&mut clients, ClientId(1)), Delivery::Done);
    assert_eq!(deliver(&mut clients, ClientId(1)), Delivery::BoxFull);
    assert_eq!(clients[0].mailbox, vec![(ClientId(9), "hi".to_string())]);
    assert!(clients[2].mailbox.is_empty());
    assert_eq!(
        registry::poll(&mut clients, ClientId(1)),
        ClientPollReply::Message { src: ClientId(9), content: "hi".to_string() }
    );
    assert_eq!(registry::poll(&mut clients, ClientId(1)), ClientPollReply::Nothing);
}

#[test]
fn texts_for_several_clients_go_into_mailboxes() {
    let mut clients = clients();
    let all = vec![(ClientId(1), ServerId(5)), (ClientId(2), ServerId(5))];
    let some = vec![(ClientId(1), ServerId(5)), (ClientId(3), ServerId(5))];
    assert!(registry::are_local(&clients, &all));
    assert!(!registry::are_local(&clients, &some));
    assert!(registry::are_local(&clients, &vec![]));
    registry::deliver_to(&mut clients, 1, ClientId(9), &some, &"hi".to_string());
    registry::deliver_to(&mut clients, 1, ClientId(9), &all, &"ho".to_string());
    assert_eq!(clients[0].mailbox, vec![(ClientId(9), "hi".to_string())]);
    assert_eq!(clients[1].mailbox, vec![(ClientId(9), "ho".to_string())]);
}

#[test]
fn servers_are_found_on_routes() {
    let route = vec![ServerId(1), ServerId(2)];
    assert!(registry::is_on(&route, ServerId(2)));
    assert!(!registry::is_on(&route, ServerId(3)));
    assert!(!registry::is_on(&vec![], ServerId(3)));
}

#[test]
fn a_map_is_walked_once() {
    let map: HashMap<u128, u8> = (0..50u8).map(|i| (i as u128 * 7, i)).collect();
    let mut order: Vec<(u128, u8)> = walk::walk(&map).into_iter().map(|(k, v)| (k, *v)).collect();
    order.sort();
    let all: Vec<(u128, u8)> = (0..50u8).map(|i| (i as u128 * 7, i)).collect();
    assert_eq!(order, all);
}
