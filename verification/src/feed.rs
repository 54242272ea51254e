//! Changes, as they arrive.
//!
//! # This is a cursor, not a callback
//!
//! A subscriber that is busy is behind, never lossy: the log is the buffer. So the honest shape is
//! one that lets a caller take the next change when it is ready for it.
//!
//! # The node will drop a subscriber that stops reading
//!
//! When a client stops reading, its socket fills and the node's write blocks. Rather than hold a
//! thread indefinitely the node ends the connection. Nothing is lost, because a new subscription
//! resumes after the last handled sequence with
//! [`Follow::resuming_after`](crate::wire::push::Follow::resuming_after), but a reconnect path is
//! not optional.

use vstd::prelude::*;

use crate::client::{refusal, refusal_words, refuses_with};
use crate::error::Error;
use crate::wire::frame::Kind;
use crate::wire::push::{change_of, Change, ChangeView};

verus! {

/// A stream of changes on a connection that asked to follow.
#[derive(Debug)]
pub struct Feed<S> {
    stream: S,
    finished: bool,
}

impl<S> Feed<S> {
    /// The connection that the changes arrive on.
    pub closed spec fn connection(&self) -> S {
        self.stream
    }

    /// Whether the feed has ended.
    pub closed spec fn has_ended(&self) -> bool {
        self.finished
    }

    /// The changes that arrive on `stream`.
    #[must_use]
    pub fn new(stream: S) -> (feed: Self)
        ensures
            feed.connection() == stream,
            !feed.has_ended(),
    {
        Feed { stream, finished: false }
    }

    /// The connection to read the next frame from.
    pub fn stream(&mut self) -> (stream: &mut S)
        ensures
            *stream == old(self).connection(),
            final(self).connection() == *final(stream),
            final(self).has_ended() == old(self).has_ended(),
    {
        &mut self.stream
    }

    /// What the next frame comes to: the next change, or `None` when the node closed the stream.
    ///
    /// `None` is not an error and not the end of the data: it is this connection ending. Once the
    /// feed has ended it keeps saying so, whatever is read. A refusal can still arrive: the node
    /// answers a subscription it will not serve with its own words rather than with silence.
    pub fn heard(&mut self, frame: Option<(Kind, Vec<u8>)>) -> (next: Result<Option<Change>, Error>)
        ensures
            final(self).connection() == old(self).connection(),
            final(self).has_ended() == (old(self).has_ended() || !(frame matches Some(
                (Kind::Change, _),
            ))),
            if old(self).has_ended() {
                next matches Ok(None)
            } else {
                match frame {
                    None => next matches Ok(None),
                    Some((kind, body)) => match kind {
                        Kind::Change => match next {
                            Ok(Some(change)) => change_of(body@) == Ok::<ChangeView, Error>(
                                change@,
                            ),
                            Ok(None) => false,
                            Err(error) => change_of(body@) == Err::<ChangeView, Error>(error),
                        },
                        Kind::Refusal => next matches Err(error) && refuses_with(
                            error,
                            refusal_words(body@),
                        ),
                        Kind::Request | Kind::Answer | Kind::Subscribe => next matches Err(
                            Error::UnknownFrame { tag },
                        ) && tag == kind.byte(),
                    },
                }
            },
    {
        if self.finished {
            return Ok(None);
        }
        match frame {
            None => {
                self.finished = true;
                Ok(None)
            },
            Some((Kind::Change, body)) => match Change::decode(body.as_slice()) {
                Ok(change) => Ok(Some(change)),
                Err(error) => Err(error),
            },
            Some((Kind::Refusal, body)) => {
                self.finished = true;
                Err(refusal(body))
            },
            Some((other, _)) => {
                self.finished = true;
                Err(Error::UnknownFrame { tag: other.tag() })
            },
        }
    }

    /// Whether this feed has ended.
    #[must_use]
    pub fn is_finished(&self) -> (finished: bool)
        ensures
            finished == self.has_ended(),
    {
        self.finished
    }
}

}
