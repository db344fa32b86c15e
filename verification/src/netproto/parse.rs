//! What bytes mean.
//!
//! Each function gives the value that stands at the front of some bytes with
//! the bytes behind it, or the reason why there is none.
use super::decode::DecodeError;
use super::front;
use crate::endian;
use crate::messages::{
    AuthMessageView, ClientError, ClientId, ClientMessageView, ClientPollReplyView,
    ClientQueryView, ClientReplyView, DelayedError, FullyQualifiedMessageView, ServerId,
    ServerMessageView,
};
use vstd::prelude::*;
use vstd::utf8;

verus! {

/// A value and the bytes behind it, or why there is no value.
pub type Parsed<T> = Result<(T, Seq<u8>), DecodeError>;

/// Whether `result` and the bytes `after` it are what `parsed` says. Of the
/// bytes after an error nothing is said.
pub open spec fn agrees<T>(
    parsed: Parsed<T>,
    result: Result<T, DecodeError>,
    after: Seq<u8>,
) -> bool {
    match parsed {
        Ok((value, rest)) => result == Ok::<T, DecodeError>(value) && after == rest,
        Err(e) => result == Err::<T, DecodeError>(e),
    }
}

/// What a result says.
pub open spec fn viewed<T: View>(result: Result<T, DecodeError>) -> Result<T::V, DecodeError> {
    match result {
        Ok(value) => Ok(value@),
        Err(e) => Err(e),
    }
}

/// The text that bytes stand for which are not valid UTF-8.
pub uninterp spec fn lossy_utf8(bytes: Seq<u8>) -> Seq<char>;

/// The text of `bytes`.
pub open spec fn text(bytes: Seq<u8>) -> Seq<char> {
    if utf8::valid_utf8(bytes) {
        utf8::decode_utf8(bytes)
    } else {
        lossy_utf8(bytes)
    }
}

/// One byte.
pub open spec fn byte(b: Seq<u8>) -> Parsed<u8> {
    if b.len() < 1 {
        Err(DecodeError::UnexpectedEof)
    } else {
        Ok((b[0], b.skip(1)))
    }
}

/// As many bytes as `len` says.
pub open spec fn bytes(b: Seq<u8>, len: nat) -> Parsed<Seq<u8>> {
    if b.len() < len {
        Err(DecodeError::UnexpectedEof)
    } else {
        Ok((b.take(len as int), b.skip(len as int)))
    }
}

/// A number in `len` bytes, least significant first.
pub open spec fn fixed(b: Seq<u8>, len: nat) -> Parsed<u128> {
    match bytes(b, len) {
        Ok((digits, rest)) => Ok((endian::le_value(digits) as u128, rest)),
        Err(e) => Err(e),
    }
}

/// A number. A number that fits in fewer bytes than it takes is accepted.
pub open spec fn number(b: Seq<u8>) -> Parsed<u128> {
    match byte(b) {
        Ok((first, rest)) => if first <= 250 {
            Ok((first as u128, rest))
        } else if first == 251 {
            fixed(rest, 2)
        } else if first == 252 {
            fixed(rest, 4)
        } else if first == 253 {
            fixed(rest, 8)
        } else if first == 254 {
            fixed(rest, 16)
        } else {
            Err(DecodeError::InvalidMarker)
        },
        Err(e) => Err(e),
    }
}

/// A number that is a count or a tag: as much of it as a `usize` holds.
pub open spec fn size(b: Seq<u8>) -> Parsed<usize> {
    match number(b) {
        Ok((n, rest)) => Ok((n as usize, rest)),
        Err(e) => Err(e),
    }
}

/// Bytes after their count.
pub open spec fn counted(b: Seq<u8>) -> Parsed<Seq<u8>> {
    match size(b) {
        Ok((len, rest)) => bytes(rest, len as nat),
        Err(e) => Err(e),
    }
}

/// An identifier: sixteen bytes after their count.
pub open spec fn uuid(b: Seq<u8>) -> Parsed<u128> {
    match counted(b) {
        Ok((digits, rest)) => if digits.len() == 16 {
            Ok((endian::be_value(digits) as u128, rest))
        } else {
            Err(DecodeError::InvalidUuid)
        },
        Err(e) => Err(e),
    }
}

/// An array of `len` bytes, after their count.
pub open spec fn array(b: Seq<u8>, len: nat) -> Parsed<Seq<u8>> {
    match counted(b) {
        Ok((content, rest)) => if content.len() == len {
            Ok((content, rest))
        } else {
            Err(DecodeError::InvalidLength)
        },
        Err(e) => Err(e),
    }
}

/// A client's identifier.
pub open spec fn clientid(b: Seq<u8>) -> Parsed<ClientId> {
    match uuid(b) {
        Ok((id, rest)) => Ok((ClientId(id), rest)),
        Err(e) => Err(e),
    }
}

/// A server's identifier.
pub open spec fn serverid(b: Seq<u8>) -> Parsed<ServerId> {
    match uuid(b) {
        Ok((id, rest)) => Ok((ServerId(id), rest)),
        Err(e) => Err(e),
    }
}

/// A text: its bytes after their count.
pub open spec fn string(b: Seq<u8>) -> Parsed<Seq<char>> {
    match counted(b) {
        Ok((utf8, rest)) => Ok((text(utf8), rest)),
        Err(e) => Err(e),
    }
}

/// An authentication message.
pub open spec fn auth(b: Seq<u8>) -> Parsed<AuthMessageView> {
    match byte(b) {
        Ok((tag, rest)) => if tag == 0 {
            match clientid(rest) {
                Ok((user, rest)) => match array(rest, 8) {
                    Ok((nonce, rest)) => Ok((AuthMessageView::Hello { user, nonce }, rest)),
                    Err(e) => Err(e),
                },
                Err(e) => Err(e),
            }
        } else if tag == 1 {
            match serverid(rest) {
                Ok((server, rest)) => match array(rest, 8) {
                    Ok((nonce, rest)) => Ok((AuthMessageView::Nonce { server, nonce }, rest)),
                    Err(e) => Err(e),
                },
                Err(e) => Err(e),
            }
        } else if tag == 2 {
            match array(rest, 16) {
                Ok((response, rest)) => Ok((AuthMessageView::Auth { response }, rest)),
                Err(e) => Err(e),
            }
        } else {
            Err(DecodeError::InvalidTag)
        },
        Err(e) => Err(e),
    }
}

/// `n` identifiers of clients, behind those of `seen`.
pub open spec fn client_ids(b: Seq<u8>, n: nat, seen: Seq<ClientId>) -> Parsed<Seq<ClientId>>
    decreases n,
{
    if n == 0 {
        Ok((seen, b))
    } else {
        match clientid(b) {
            Ok((id, rest)) => client_ids(rest, (n - 1) as nat, seen.push(id)),
            Err(e) => Err(e),
        }
    }
}

/// `n` identifiers of servers, behind those of `seen`.
pub open spec fn server_ids(b: Seq<u8>, n: nat, seen: Seq<ServerId>) -> Parsed<Seq<ServerId>>
    decreases n,
{
    if n == 0 {
        Ok((seen, b))
    } else {
        match serverid(b) {
            Ok((id, rest)) => server_ids(rest, (n - 1) as nat, seen.push(id)),
            Err(e) => Err(e),
        }
    }
}

/// A client with its server.
pub open spec fn destination(b: Seq<u8>) -> Parsed<(ClientId, ServerId)> {
    match clientid(b) {
        Ok((client, rest)) => match serverid(rest) {
            Ok((server, rest)) => Ok(((client, server), rest)),
            Err(e) => Err(e),
        },
        Err(e) => Err(e),
    }
}

/// `n` clients with their servers, behind those of `seen`.
pub open spec fn destinations(b: Seq<u8>, n: nat, seen: Seq<(ClientId, ServerId)>) -> Parsed<
    Seq<(ClientId, ServerId)>,
>
    decreases n,
{
    if n == 0 {
        Ok((seen, b))
    } else {
        match destination(b) {
            Ok((dst, rest)) => destinations(rest, (n - 1) as nat, seen.push(dst)),
            Err(e) => Err(e),
        }
    }
}

/// A user with its name.
pub open spec fn user(b: Seq<u8>) -> Parsed<(u128, Seq<char>)> {
    match uuid(b) {
        Ok((id, rest)) => match string(rest) {
            Ok((name, rest)) => Ok(((id, name), rest)),
            Err(e) => Err(e),
        },
        Err(e) => Err(e),
    }
}

/// `n` users with their names, added to those of `seen`. Of two with the same
/// identifier the later one counts.
pub open spec fn users(b: Seq<u8>, n: nat, seen: Map<u128, Seq<char>>) -> Parsed<
    Map<u128, Seq<char>>,
>
    decreases n,
{
    if n == 0 {
        Ok((seen, b))
    } else {
        match user(b) {
            Ok((entry, rest)) => users(rest, (n - 1) as nat, seen.insert(entry.0, entry.1)),
            Err(e) => Err(e),
        }
    }
}

/// Users with their names, after their count.
pub open spec fn userlist(b: Seq<u8>) -> Parsed<Map<u128, Seq<char>>> {
    match size(b) {
        Ok((n, rest)) => users(rest, n as nat, Map::empty()),
        Err(e) => Err(e),
    }
}

/// A client's message.
pub open spec fn client(b: Seq<u8>) -> Parsed<ClientMessageView> {
    match byte(b) {
        Ok((tag, rest)) => if tag == 0 {
            match clientid(rest) {
                Ok((dest, rest)) => match string(rest) {
                    Ok((content, rest)) => Ok((ClientMessageView::Text { dest, content }, rest)),
                    Err(e) => Err(e),
                },
                Err(e) => Err(e),
            }
        } else if tag == 1 {
            match size(rest) {
                Ok((n, rest)) => match client_ids(rest, n as nat, seq![]) {
                    Ok((dest, rest)) => match string(rest) {
                        Ok((content, rest)) => Ok(
                            (ClientMessageView::MText { dest, content }, rest),
                        ),
                        Err(e) => Err(e),
                    },
                    Err(e) => Err(e),
                },
                Err(e) => Err(e),
            }
        } else {
            Err(DecodeError::InvalidTag)
        },
        Err(e) => Err(e),
    }
}

/// An announcement without its tag.
pub open spec fn announce(b: Seq<u8>) -> Parsed<ServerMessageView> {
    match size(b) {
        Ok((n, rest)) => match server_ids(rest, n as nat, seq![]) {
            Ok((route, rest)) => match userlist(rest) {
                Ok((clients, rest)) => Ok((ServerMessageView::Announce { route, clients }, rest)),
                Err(e) => Err(e),
            },
            Err(e) => Err(e),
        },
        Err(e) => Err(e),
    }
}

/// A fully qualified message.
pub open spec fn qualified(b: Seq<u8>) -> Parsed<FullyQualifiedMessageView> {
    match clientid(b) {
        Ok((src, rest)) => match serverid(rest) {
            Ok((srcsrv, rest)) => match size(rest) {
                Ok((n, rest)) => match destinations(rest, n as nat, seq![]) {
                    Ok((dsts, rest)) => match string(rest) {
                        Ok((content, rest)) => Ok(
                            (FullyQualifiedMessageView { src, srcsrv, dsts, content }, rest),
                        ),
                        Err(e) => Err(e),
                    },
                    Err(e) => Err(e),
                },
                Err(e) => Err(e),
            },
            Err(e) => Err(e),
        },
        Err(e) => Err(e),
    }
}

/// A server's message.
pub open spec fn server(b: Seq<u8>) -> Parsed<ServerMessageView> {
    match byte(b) {
        Ok((tag, rest)) => if tag == 0 {
            announce(rest)
        } else if tag == 1 {
            match qualified(rest) {
                Ok((msg, rest)) => Ok((ServerMessageView::Message(msg), rest)),
                Err(e) => Err(e),
            }
        } else {
            Err(DecodeError::InvalidTag)
        },
        Err(e) => Err(e),
    }
}

/// The reason of a refusal.
pub open spec fn client_error(b: Seq<u8>) -> Parsed<ClientError> {
    match size(b) {
        Ok((tag, rest)) => if tag == 0 {
            Ok((ClientError::WorkProofError, rest))
        } else if tag == 1 {
            Ok((ClientError::UnknownClient, rest))
        } else if tag == 2 {
            Ok((ClientError::SequenceError, rest))
        } else if tag == 3 {
            match clientid(rest) {
                Ok((id, rest)) => Ok((ClientError::BoxFull(id), rest)),
                Err(e) => Err(e),
            }
        } else if tag == 4 {
            Ok((ClientError::InternalError, rest))
        } else {
            Err(DecodeError::InvalidErrorTag)
        },
        Err(e) => Err(e),
    }
}

/// A reply to a client.
pub open spec fn client_reply(b: Seq<u8>) -> Parsed<ClientReplyView> {
    match size(b) {
        Ok((tag, rest)) => if tag == 0 {
            Ok((ClientReplyView::Delivered, rest))
        } else if tag == 1 {
            match client_error(rest) {
                Ok((err, rest)) => Ok((ClientReplyView::Error(err), rest)),
                Err(e) => Err(e),
            }
        } else if tag == 2 {
            Ok((ClientReplyView::Delayed, rest))
        } else if tag == 3 {
            match serverid(rest) {
                Ok((id, rest)) => match server(rest) {
                    Ok((msg, rest)) => Ok((ClientReplyView::Transfer(id, msg), rest)),
                    Err(e) => Err(e),
                },
                Err(e) => Err(e),
            }
        } else {
            Err(DecodeError::InvalidTag)
        },
        Err(e) => Err(e),
    }
}

/// Where reading one reply after the other ends: with the first error.
pub open spec fn client_replies_end(b: Seq<u8>) -> DecodeError
    decreases b.len(),
{
    proof {
        front::law_client_reply(b, seq![]);
    }
    match client_reply(b) {
        Ok((_, rest)) => client_replies_end(rest),
        Err(e) => e,
    }
}

/// The answer to a client that polls.
pub open spec fn client_poll_reply(b: Seq<u8>) -> Parsed<ClientPollReplyView> {
    match size(b) {
        Ok((tag, rest)) => if tag == 0 {
            match clientid(rest) {
                Ok((src, rest)) => match string(rest) {
                    Ok((content, rest)) => Ok(
                        (ClientPollReplyView::Message { src, content }, rest),
                    ),
                    Err(e) => Err(e),
                },
                Err(e) => Err(e),
            }
        } else if tag == 1 {
            match size(rest) {
                Ok((err_tag, rest)) => if err_tag == 0 {
                    match clientid(rest) {
                        Ok((id, rest)) => Ok(
                            (
                                ClientPollReplyView::DelayedError(
                                    DelayedError::UnknownRecipient(id),
                                ),
                                rest,
                            ),
                        ),
                        Err(e) => Err(e),
                    }
                } else {
                    Err(DecodeError::InvalidErrorTag)
                },
                Err(e) => Err(e),
            }
        } else if tag == 2 {
            Ok((ClientPollReplyView::Nothing, rest))
        } else {
            Err(DecodeError::InvalidTag)
        },
        Err(e) => Err(e),
    }
}

/// A client's query.
pub open spec fn client_query(b: Seq<u8>) -> Parsed<ClientQueryView> {
    match size(b) {
        Ok((tag, rest)) => if tag == 0 {
            match string(rest) {
                Ok((name, rest)) => Ok((ClientQueryView::Register(name), rest)),
                Err(e) => Err(e),
            }
        } else if tag == 1 {
            match client(rest) {
                Ok((msg, rest)) => Ok((ClientQueryView::Message(msg), rest)),
                Err(e) => Err(e),
            }
        } else if tag == 2 {
            Ok((ClientQueryView::Poll, rest))
        } else if tag == 3 {
            Ok((ClientQueryView::ListUsers, rest))
        } else {
            Err(DecodeError::InvalidTag)
        },
        Err(e) => Err(e),
    }
}

/// What stands before the content of a sequenced request.
pub open spec fn sequence_header(b: Seq<u8>) -> Parsed<(u128, ClientId, u128)> {
    match number(b) {
        Ok((seqid, rest)) => match clientid(rest) {
            Ok((src, rest)) => match number(rest) {
                Ok((workproof, rest)) => Ok(((seqid, src, workproof), rest)),
                Err(e) => Err(e),
            },
            Err(e) => Err(e),
        },
        Err(e) => Err(e),
    }
}

} // verus!
