//! The messages that clients and servers exchange.
use std::collections::HashMap;
use vstd::prelude::*;

verus! {

/// A client's identifier: its UUID, as the number that the sixteen bytes of
/// the UUID give when the first of them is the most significant.
#[derive(Clone, Copy, PartialEq, Eq, Structural, Debug, Hash)]
pub struct ClientId(pub u128);

/// A server's identifier: its UUID, as the number that the sixteen bytes of
/// the UUID give when the first of them is the most significant.
#[derive(Clone, Copy, PartialEq, Eq, Structural, Debug, Hash)]
pub struct ServerId(pub u128);

/// The authentication handshake.
#[derive(PartialEq, Eq, Debug)]
pub enum AuthMessage {
    /// A client introduces itself.
    Hello { user: ClientId, nonce: [u8; 8] },
    /// A server answers with a nonce of its own.
    Nonce { server: ServerId, nonce: [u8; 8] },
    /// The answer to a nonce.
    Auth { response: [u8; 16] },
}

/// What an [`AuthMessage`] says.
pub enum AuthMessageView {
    Hello { user: ClientId, nonce: Seq<u8> },
    Nonce { server: ServerId, nonce: Seq<u8> },
    Auth { response: Seq<u8> },
}

impl View for AuthMessage {
    type V = AuthMessageView;

    open spec fn view(&self) -> AuthMessageView {
        match self {
            AuthMessage::Hello { user, nonce } => AuthMessageView::Hello {
                user: *user,
                nonce: nonce@,
            },
            AuthMessage::Nonce { server, nonce } => AuthMessageView::Nonce {
                server: *server,
                nonce: nonce@,
            },
            AuthMessage::Auth { response } => AuthMessageView::Auth { response: response@ },
        }
    }
}

/// A text with everything that servers need to route it.
#[derive(PartialEq, Eq, Debug)]
pub struct FullyQualifiedMessage {
    /// The client that sent it.
    pub src: ClientId,
    /// The server of that client.
    pub srcsrv: ServerId,
    /// The clients that it is for, each with its server.
    pub dsts: Vec<(ClientId, ServerId)>,
    /// The text.
    pub content: String,
}

/// What a [`FullyQualifiedMessage`] says.
pub struct FullyQualifiedMessageView {
    pub src: ClientId,
    pub srcsrv: ServerId,
    pub dsts: Seq<(ClientId, ServerId)>,
    pub content: Seq<char>,
}

impl View for FullyQualifiedMessage {
    type V = FullyQualifiedMessageView;

    open spec fn view(&self) -> FullyQualifiedMessageView {
        FullyQualifiedMessageView {
            src: self.src,
            srcsrv: self.srcsrv,
            dsts: self.dsts@,
            content: self.content@,
        }
    }
}

/// The names of users, by the number of their [`ClientId`].
pub open spec fn names(users: Map<u128, String>) -> Map<u128, Seq<char>> {
    users.map_values(|name: String| name@)
}

/// What a server tells another server.
#[derive(PartialEq, Eq, Debug)]
pub enum ServerMessage {
    /// The clients that can be reached over a route, by the number of their
    /// [`ClientId`], with their names.
    Announce { route: Vec<ServerId>, clients: HashMap<u128, String> },
    /// A text to deliver or to forward.
    Message(FullyQualifiedMessage),
}

/// What a [`ServerMessage`] says.
pub enum ServerMessageView {
    Announce { route: Seq<ServerId>, clients: Map<u128, Seq<char>> },
    Message(FullyQualifiedMessageView),
}

impl View for ServerMessage {
    type V = ServerMessageView;

    open spec fn view(&self) -> ServerMessageView {
        match self {
            ServerMessage::Announce { route, clients } => ServerMessageView::Announce {
                route: route@,
                clients: names(clients@),
            },
            ServerMessage::Message(msg) => ServerMessageView::Message(msg@),
        }
    }
}

/// A text that a client sends.
#[allow(inconsistent_fields)]
#[derive(PartialEq, Eq, Debug)]
pub enum ClientMessage {
    /// To one client.
    Text { dest: ClientId, content: String },
    /// To several clients.
    MText { dest: Vec<ClientId>, content: String },
}

/// What a [`ClientMessage`] says.
#[allow(inconsistent_fields)]
pub enum ClientMessageView {
    Text { dest: ClientId, content: Seq<char> },
    MText { dest: Seq<ClientId>, content: Seq<char> },
}

impl View for ClientMessage {
    type V = ClientMessageView;

    open spec fn view(&self) -> ClientMessageView {
        match self {
            ClientMessage::Text { dest, content } => ClientMessageView::Text {
                dest: *dest,
                content: content@,
            },
            ClientMessage::MText { dest, content } => ClientMessageView::MText {
                dest: dest@,
                content: content@,
            },
        }
    }
}

/// Why a client's request was refused.
#[derive(Clone, Copy, PartialEq, Eq, Structural, Debug)]
pub enum ClientError {
    /// The proof of work does not hold.
    WorkProofError,
    /// The client is not registered.
    UnknownClient,
    /// The sequence number does not increase.
    SequenceError,
    /// The mailbox of that client is full.
    BoxFull(ClientId),
    /// The server failed.
    InternalError,
}

/// What became of a text that a client sent.
#[derive(PartialEq, Eq, Debug)]
pub enum ClientReply {
    /// It is in the mailbox of its destination.
    Delivered,
    /// It was refused.
    Error(ClientError),
    /// Its destination is not known yet.
    Delayed,
    /// Its destination is a client of that server, which the message is for.
    Transfer(ServerId, ServerMessage),
}

/// What a [`ClientReply`] says.
pub enum ClientReplyView {
    Delivered,
    Error(ClientError),
    Delayed,
    Transfer(ServerId, ServerMessageView),
}

impl View for ClientReply {
    type V = ClientReplyView;

    open spec fn view(&self) -> ClientReplyView {
        match self {
            ClientReply::Delivered => ClientReplyView::Delivered,
            ClientReply::Error(err) => ClientReplyView::Error(*err),
            ClientReply::Delayed => ClientReplyView::Delayed,
            ClientReply::Transfer(id, msg) => ClientReplyView::Transfer(*id, msg@),
        }
    }
}

/// What the replies of `list` say, in order.
pub open spec fn reply_views(list: Seq<ClientReply>) -> Seq<ClientReplyView> {
    list.map_values(|reply: ClientReply| reply@)
}

/// Why a text that had been delayed will not be delivered.
#[derive(Clone, Copy, PartialEq, Eq, Structural, Debug)]
pub enum DelayedError {
    /// Nobody knows that client.
    UnknownRecipient(ClientId),
}

/// The answer to a client that asks for its next text.
#[derive(PartialEq, Eq, Debug)]
pub enum ClientPollReply {
    /// The next text and who sent it.
    Message { src: ClientId, content: String },
    /// A text that the client sent could not be delivered.
    DelayedError(DelayedError),
    /// There is nothing.
    Nothing,
}

/// What a [`ClientPollReply`] says.
pub enum ClientPollReplyView {
    Message { src: ClientId, content: Seq<char> },
    DelayedError(DelayedError),
    Nothing,
}

impl View for ClientPollReply {
    type V = ClientPollReplyView;

    open spec fn view(&self) -> ClientPollReplyView {
        match self {
            ClientPollReply::Message { src, content } => ClientPollReplyView::Message {
                src: *src,
                content: content@,
            },
            ClientPollReply::DelayedError(err) => ClientPollReplyView::DelayedError(*err),
            ClientPollReply::Nothing => ClientPollReplyView::Nothing,
        }
    }
}

/// What a client asks of its server.
#[derive(PartialEq, Eq, Debug)]
pub enum ClientQuery {
    /// To be registered under that name.
    Register(String),
    /// To send a text.
    Message(ClientMessage),
    /// To get the next text of its mailbox.
    Poll,
    /// To know who can be reached.
    ListUsers,
}

/// What a [`ClientQuery`] says.
pub enum ClientQueryView {
    Register(Seq<char>),
    Message(ClientMessageView),
    Poll,
    ListUsers,
}

impl View for ClientQuery {
    type V = ClientQueryView;

    open spec fn view(&self) -> ClientQueryView {
        match self {
            ClientQuery::Register(name) => ClientQueryView::Register(name@),
            ClientQuery::Message(msg) => ClientQueryView::Message(msg@),
            ClientQuery::Poll => ClientQueryView::Poll,
            ClientQuery::ListUsers => ClientQueryView::ListUsers,
        }
    }
}

/// A request with what it takes to accept it: who sends it, its place in the
/// sequence of that client's requests, and a proof of work.
#[derive(PartialEq, Eq, Debug)]
pub struct Sequence<X> {
    pub seqid: u128,
    pub src: ClientId,
    pub workproof: u128,
    pub content: X,
}

/// A message with the server that it goes to next.
#[derive(PartialEq, Eq, Debug)]
pub struct Outgoing {
    pub nexthop: ServerId,
    pub message: FullyQualifiedMessage,
}

/// What an [`Outgoing`] says.
pub struct OutgoingView {
    pub nexthop: ServerId,
    pub message: FullyQualifiedMessageView,
}

impl View for Outgoing {
    type V = OutgoingView;

    open spec fn view(&self) -> OutgoingView {
        OutgoingView { nexthop: self.nexthop, message: self.message@ }
    }
}

/// What the messages of `list` say, in order.
pub open spec fn outgoing_views(list: Seq<Outgoing>) -> Seq<OutgoingView> {
    list.map_values(|o: Outgoing| o@)
}

/// The answer to a [`ServerMessage`].
#[derive(PartialEq, Eq, Debug)]
pub enum ServerReply {
    /// An announcement came without a route.
    EmptyRoute,
    /// The messages to send on.
    Outgoing(Vec<Outgoing>),
}

/// What a [`ServerReply`] says.
pub enum ServerReplyView {
    EmptyRoute,
    Outgoing(Seq<OutgoingView>),
}

impl View for ServerReply {
    type V = ServerReplyView;

    open spec fn view(&self) -> ServerReplyView {
        match self {
            ServerReply::EmptyRoute => ServerReplyView::EmptyRoute,
            ServerReply::Outgoing(list) => ServerReplyView::Outgoing(outgoing_views(list@)),
        }
    }
}

/// A view of an authentication message has its identifier and its array.
pub proof fn law_auth_view(user: ClientId, server: ServerId, nonce: [u8; 8], response: [u8; 16])
    ensures
        (AuthMessage::Hello { user, nonce })@ == (AuthMessageView::Hello { user, nonce: nonce@ }),
        (AuthMessage::Nonce { server, nonce })@ == (AuthMessageView::Nonce {
            server,
            nonce: nonce@,
        }),
        (AuthMessage::Auth { response })@ == (AuthMessageView::Auth { response: response@ }),
{
}

/// A view of a text between servers has its sender, the server of that one, its
/// destinations and its content.
pub proof fn law_qualified_view(m: FullyQualifiedMessage)
    ensures
        m@.src == m.src,
        m@.srcsrv == m.srcsrv,
        m@.dsts == m.dsts@,
        m@.content == m.content@,
{
}

/// The names of users are those of the same users.
pub proof fn law_names(users: Map<u128, String>, k: u128)
    ensures
        names(users).contains_key(k) <==> users.contains_key(k),
        users.contains_key(k) ==> names(users)[k] == users[k]@,
{
}

/// A view of a server's message has the route and the names of an announcement,
/// or the view of the text.
pub proof fn law_server_view(
    route: Vec<ServerId>,
    clients: std::collections::HashMap<u128, String>,
    msg: FullyQualifiedMessage,
)
    ensures
        (ServerMessage::Announce { route, clients })@ == (ServerMessageView::Announce {
            route: route@,
            clients: names(clients@),
        }),
        ServerMessage::Message(msg)@ == ServerMessageView::Message(msg@),
{
}

/// A view of a client's message has its destinations and its content.
pub proof fn law_client_view(one: ClientId, several: Vec<ClientId>, content: String)
    ensures
        (ClientMessage::Text { dest: one, content })@ == (ClientMessageView::Text {
            dest: one,
            content: content@,
        }),
        (ClientMessage::MText { dest: several, content })@ == (ClientMessageView::MText {
            dest: several@,
            content: content@,
        }),
{
}

/// A view of a reply to a client has its error, or its server and the view of
/// its message.
pub proof fn law_reply_view(err: ClientError, id: ServerId, msg: ServerMessage)
    ensures
        ClientReply::Delivered@ == ClientReplyView::Delivered,
        ClientReply::Error(err)@ == ClientReplyView::Error(err),
        ClientReply::Delayed@ == ClientReplyView::Delayed,
        ClientReply::Transfer(id, msg)@ == ClientReplyView::Transfer(id, msg@),
{
}

/// A view of the answer to a poll has its sender and its content, or its error.
pub proof fn law_poll_view(src: ClientId, content: String, err: DelayedError)
    ensures
        (ClientPollReply::Message { src, content })@ == (ClientPollReplyView::Message {
            src,
            content: content@,
        }),
        ClientPollReply::DelayedError(err)@ == ClientPollReplyView::DelayedError(err),
        ClientPollReply::Nothing@ == ClientPollReplyView::Nothing,
{
}

/// A view of a client's query has its name, or the view of its message.
pub proof fn law_query_view(name: String, msg: ClientMessage)
    ensures
        ClientQuery::Register(name)@ == ClientQueryView::Register(name@),
        ClientQuery::Message(msg)@ == ClientQueryView::Message(msg@),
        ClientQuery::Poll@ == ClientQueryView::Poll,
        ClientQuery::ListUsers@ == ClientQueryView::ListUsers,
{
}

/// A view of the answer to a server has the views of its messages, in order.
pub proof fn law_server_reply_view(list: Vec<Outgoing>, i: int)
    ensures
        ServerReply::EmptyRoute@ == ServerReplyView::EmptyRoute,
        ServerReply::Outgoing(list)@ == ServerReplyView::Outgoing(outgoing_views(list@)),
        outgoing_views(list@).len() == list@.len(),
        0 <= i < list@.len() ==> outgoing_views(list@)[i] == (OutgoingView {
            nexthop: list@[i].nexthop,
            message: list@[i].message@,
        }),
{
}

/// The views of replies are those of each of them, in order.
pub proof fn law_reply_views(list: Seq<ClientReply>, i: int)
    ensures
        reply_views(list).len() == list.len(),
        0 <= i < list.len() ==> reply_views(list)[i] == list[i]@,
{
}

} // verus!
