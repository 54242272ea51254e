//! Being told rather than asking: what a client subscribes to, and what arrives.

use vstd::prelude::*;
use vstd::utf8::encode_utf8;

use crate::bytes::big_endian;
use crate::codec::layout::block;
use crate::codec::parse::{take_byte, take_text};
use crate::error::Error;
use crate::text::IntoText;
use crate::value::{Value, ValueView};
use crate::wire::body::{put_text, put_u64, take_encoded, take_u64, well_shaped, Body};

verus! {

/// What a client asked to follow.
#[derive(Debug, Clone, PartialEq, Eq)]
pub struct Follow {
    /// The first log position to read, inclusive.
    ///
    /// A position rather than "from now", so a client that was disconnected resumes exactly where
    /// it stopped.
    ///
    /// The arithmetic belongs to the client and is easy to get wrong in both directions: resuming
    /// with the position already handled delivers it twice, resuming with one not yet reached
    /// reports being caught up. Both are silent. Prefer [`Follow::resuming_after`] over setting
    /// this by hand.
    pub from: u64,
    /// The table to watch, or every table in the session's database.
    pub table: Option<String>,
}

/// What a client asked to follow.
#[verifier::ext_equal]
pub struct FollowView {
    /// The first log position to read.
    pub from: u64,
    /// The table to watch.
    pub table: Option<Seq<char>>,
}

impl View for Follow {
    type V = FollowView;

    open spec fn view(&self) -> FollowView {
        FollowView {
            from: self.from,
            table: match self.table {
                Some(name) => Some(name@),
                None => None,
            },
        }
    }
}

/// The body of a subscribe frame.
pub open spec fn follow_bytes(follow: FollowView) -> Seq<u8> {
    big_endian(follow.from as nat, 8) + match follow.table {
        Some(name) => seq![1u8] + block(encode_utf8(name)),
        None => seq![0u8],
    }
}

impl Follow {
    /// Everything the log still holds, for every table.
    #[must_use]
    pub fn everything() -> (follow: Self)
        ensures
            follow@ == (FollowView { from: 0, table: None }),
    {
        Follow { from: 0, table: None }
    }

    /// Resume after the last change actually handled.
    ///
    /// This is the `+1` that `from` being inclusive requires, done once here rather than at every
    /// call site that could get it wrong. After the last position there is, nothing follows, and
    /// the position stays.
    #[must_use]
    pub fn resuming_after(sequence: u64) -> (follow: Self)
        ensures
            follow@ == (FollowView {
                from: if sequence < u64::MAX {
                    (sequence + 1) as u64
                } else {
                    sequence
                },
                table: None,
            }),
    {
        let from: u64 = if sequence < u64::MAX {
            sequence + 1
        } else {
            sequence
        };
        Follow { from, table: None }
    }

    /// The same subscription, narrowed to one table.
    #[must_use]
    pub fn to_table(self, table: impl IntoText) -> (follow: Self)
        ensures
            follow@ == (FollowView { table: Some(table.text()), ..self@ }),
    {
        Follow { from: self.from, table: Some(table.into_text()) }
    }

    /// The body of a subscribe frame.
    #[must_use]
    pub fn encode(&self) -> (body: Vec<u8>)
        ensures
            body@ == follow_bytes(self@),
    {
        let mut body: Vec<u8> = Vec::new();
        put_u64(&mut body, self.from);
        match &self.table {
            Some(name) => {
                body.push(1);
                put_text(&mut body, name.as_str());
            },
            None => body.push(0),
        }
        assert(body@ =~= follow_bytes(self@));
        body
    }
}

/// The byte of a change that wrote.
pub const CHANGE_WRITTEN: u8 = 0;

/// The byte of a change that removed.
pub const CHANGE_REMOVED: u8 = 1;

/// What became of a record.
#[derive(Debug, Clone, PartialEq)]
#[non_exhaustive]
pub enum Became {
    /// It now holds this value.
    Written(Value),
    /// It is no longer there.
    Removed,
}

/// One change, as it arrives.
///
/// The table is named rather than identified: an id is meaningless outside the node that minted
/// it, and the catalog is on the node.
#[derive(Debug, Clone, PartialEq)]
pub struct Change {
    /// The commit this change was part of.
    ///
    /// Shared by every change of one commit, which is what lets a subscriber apply them as the
    /// unit they were written as, and what it stores in order to resume. Pass it to
    /// [`Follow::resuming_after`].
    pub sequence: u64,
    /// The table, by name.
    pub table: String,
    /// The record's identity, as the node spells it.
    pub id: String,
    /// What became of it.
    pub became: Became,
}

/// What became of a record.
#[verifier::ext_equal]
pub enum BecameView {
    /// It now holds this value.
    Written(ValueView),
    /// It is no longer there.
    Removed,
}

/// One change.
#[verifier::ext_equal]
pub struct ChangeView {
    /// The commit this change was part of.
    pub sequence: u64,
    /// The table, by name.
    pub table: Seq<char>,
    /// The record's identity.
    pub id: Seq<char>,
    /// What became of it.
    pub became: BecameView,
}

impl View for Became {
    type V = BecameView;

    open spec fn view(&self) -> BecameView {
        match self {
            Became::Written(value) => BecameView::Written(value@),
            Became::Removed => BecameView::Removed,
        }
    }
}

impl View for Change {
    type V = ChangeView;

    open spec fn view(&self) -> ChangeView {
        ChangeView {
            sequence: self.sequence,
            table: self.table@,
            id: self.id@,
            became: self.became@,
        }
    }
}

/// What the byte of a change and what follows it say became of the record.
///
/// Unlike an outcome tag, this byte is not forward-compatible: it is the last field, so an
/// unrecognised one means the frame's shape is not what this build expects.
pub open spec fn became_of(bytes: Seq<u8>) -> Result<BecameView, Error> {
    match well_shaped(take_byte(bytes)) {
        Err(error) => Err(error),
        Ok((kind, rest)) => if kind == CHANGE_WRITTEN {
            match take_encoded(rest) {
                Err(error) => Err(error),
                Ok((value, _)) => Ok(BecameView::Written(value)),
            }
        } else if kind == CHANGE_REMOVED {
            Ok(BecameView::Removed)
        } else {
            Err(Error::Malformed)
        },
    }
}

/// The change that a change frame's body tells of.
pub open spec fn change_of(body: Seq<u8>) -> Result<ChangeView, Error> {
    match take_u64(body) {
        Err(error) => Err(error),
        Ok((sequence, rest)) => match well_shaped(take_text(rest)) {
            Err(error) => Err(error),
            Ok((table, rest)) => match well_shaped(take_text(rest)) {
                Err(error) => Err(error),
                Ok((id, rest)) => match became_of(rest) {
                    Err(error) => Err(error),
                    Ok(became) => Ok(ChangeView { sequence, table, id, became }),
                },
            },
        },
    }
}

impl Change {
    /// Read one out of a change frame's body.
    pub fn decode(body: &[u8]) -> (decoded: Result<Self, Error>)
        ensures
            match decoded {
                Ok(change) => change_of(body@) == Ok::<ChangeView, Error>(change@),
                Err(error) => change_of(body@) == Err::<ChangeView, Error>(error),
            },
    {
        let mut reader = Body::new(body);
        let sequence: u64 = reader.take_u64()?;
        let table = reader.take_text()?;
        let id = reader.take_text()?;
        let kind: u8 = reader.take_u8()?;
        let became = if kind == CHANGE_WRITTEN {
            Became::Written(reader.take_encoded()?)
        } else if kind == CHANGE_REMOVED {
            Became::Removed
        } else {
            return Err(Error::Malformed);
        };
        Ok(Change { sequence, table, id, became })
    }
}

}
