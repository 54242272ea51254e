//! Frames, the greeting, and the one rule that makes reading them safe.
//!
//! # A length from a stranger is not a promise
//!
//! Every frame declares its own size. A client that allocated whatever a peer declared would be
//! one packet away from being out of memory, so a length above [`CEILING`] is refused before
//! anything is allocated and the connection is finished.
//!
//! The ceiling applies outbound as well. A peer that emits what it would refuse to read is running
//! two protocols.
//!
//! # These integers are plain
//!
//! Everything here is plain big-endian. The value codec inverts the sign bit of an `i64`; this
//! layer does not. See [`crate::codec`].

use vstd::prelude::*;
use vstd::slice::slice_subrange;

use crate::bytes::{
    lemma_big_endian_len, lemma_magnitude_fits, lemma_magnitude_of_big_endian, lemma_spans,
    magnitude, read_big_endian,
};
use crate::codec::layout::{block, count, plain32};
use crate::codec::write::{count_of, put_bytes, put_lenbytes};
use crate::error::Error;
use crate::protocol::{CEILING, GREETING, GREETING_BYTES, HEADER, MAJOR, MINOR};
use crate::text::same_bytes;

verus! {

/// What a frame is.
///
/// Numbered explicitly and never renumbered: a byte that once meant one thing cannot be asked
/// about after the fact by a peer of a different build.
#[derive(Debug, Clone, Copy, PartialEq, Eq, Structural)]
#[non_exhaustive]
pub enum Kind {
    /// A script to run, with optional credentials.
    Request,
    /// One outcome per statement.
    Answer,
    /// The store refused, and said why.
    Refusal,
    /// Follow the changes from a position onward.
    Subscribe,
    /// One change, sent because it happened.
    Change,
}

impl Kind {
    /// The byte a kind is written as.
    pub open spec fn byte(self) -> u8 {
        match self {
            Kind::Request => 1,
            Kind::Answer => 2,
            Kind::Refusal => 3,
            Kind::Subscribe => 4,
            Kind::Change => 5,
        }
    }

    /// The byte this kind is written as.
    #[must_use]
    pub fn tag(self) -> (tag: u8)
        ensures
            tag == self.byte(),
    {
        match self {
            Kind::Request => 1,
            Kind::Answer => 2,
            Kind::Refusal => 3,
            Kind::Subscribe => 4,
            Kind::Change => 5,
        }
    }

    /// The kind a byte names, or `None` for one this build does not have.
    #[must_use]
    pub fn from_tag(tag: u8) -> (kind: Option<Self>)
        ensures
            kind == kind_of(tag),
    {
        match tag {
            1 => Some(Kind::Request),
            2 => Some(Kind::Answer),
            3 => Some(Kind::Refusal),
            4 => Some(Kind::Subscribe),
            5 => Some(Kind::Change),
            _ => None,
        }
    }
}

/// The kind that a byte names.
pub open spec fn kind_of(tag: u8) -> Option<Kind> {
    if tag == 1 {
        Some(Kind::Request)
    } else if tag == 2 {
        Some(Kind::Answer)
    } else if tag == 3 {
        Some(Kind::Refusal)
    } else if tag == 4 {
        Some(Kind::Subscribe)
    } else if tag == 5 {
        Some(Kind::Change)
    } else {
        None
    }
}

/// What this client says first.
#[must_use]
pub fn greet() -> (said: Vec<u8>)
    ensures
        said@ == GREETING@ + seq![MAJOR, MINOR],
        said@ == seq![0x54u8, 0x45u8, 0x53u8, 0x53u8, 1u8, 1u8],
        said@.len() == GREETING_BYTES,
{
    let magic: [u8; 4] = GREETING;
    let mut said: Vec<u8> = Vec::with_capacity(GREETING_BYTES);
    put_bytes(&mut said, magic.as_slice());
    said.push(MAJOR);
    said.push(MINOR);
    assert(said@ =~= GREETING@ + seq![MAJOR, MINOR]);
    assert(said@ =~= seq![0x54u8, 0x45u8, 0x53u8, 0x53u8, 1u8, 1u8]);
    said
}

/// Whether the first four bytes a peer said are those of a node.
///
/// Judged on their own, before the version bytes. A peer that is not a node owes nothing and may
/// send four bytes and hang up; reading all six at once would report that as an unexpected end of
/// file, which sends the reader to the network for a problem that is an address.
pub fn check_magic(magic: [u8; 4]) -> (checked: Result<(), Error>)
    ensures
        match checked {
            Ok(_) => magic@ == GREETING@,
            Err(error) => magic@ != GREETING@ && error == Error::NotThisProtocol,
        },
        checked is Ok <==> magic@ == seq![0x54u8, 0x45u8, 0x53u8, 0x53u8],
{
    let greeting: [u8; 4] = GREETING;
    assert(greeting@ =~= seq![0x54u8, 0x45u8, 0x53u8, 0x53u8]);
    if same_bytes(magic.as_slice(), greeting.as_slice()) {
        Ok(())
    } else {
        Err(Error::NotThisProtocol)
    }
}

/// What the two bytes after the magic come to: the peer's minor, or a refusal.
///
/// A differing major is that refusal. A differing minor is not: the two sides agree about frames
/// and about every value, and the newer one simply knows more outcome kinds, which the older one
/// steps over by their lengths. The peer's minor is handed back because it is the only thing that
/// decides what this client may send to an older node.
pub fn check_version(version: [u8; 2]) -> (checked: Result<u8, Error>)
    ensures
        match checked {
            Ok(minor) => version@[0] == MAJOR && minor == version@[1],
            Err(error) => version@[0] != MAJOR && error == (Error::WrongVersion {
                found: version@[0],
                supported: MAJOR,
            }),
        },
        checked is Ok <==> version@[0] == 1,
{
    let major: u8 = version[0];
    if major == MAJOR {
        Ok(version[1])
    } else {
        Err(Error::WrongVersion { found: major, supported: MAJOR })
    }
}

/// One frame: a kind byte, a length, and the body.
pub open spec fn frame_bytes(kind: Kind, body: Seq<u8>) -> Seq<u8> {
    seq![kind.byte()] + block(body)
}

/// The bytes of one frame, or a refusal to send more than a peer may be asked to read.
pub fn write(kind: Kind, body: &[u8]) -> (written: Result<Vec<u8>, Error>)
    ensures
        match written {
            Ok(bytes) => body@.len() <= CEILING && bytes@ == frame_bytes(kind, body@),
            Err(error) => body@.len() > CEILING && error == (Error::TooLarge {
                length: count(body@.len()) as u32,
            }),
        },
{
    let length: u32 = count_of(body.len());
    if length > CEILING {
        return Err(Error::TooLarge { length });
    }
    let mut bytes: Vec<u8> = Vec::new();
    bytes.push(kind.tag());
    put_lenbytes(&mut bytes, body);
    assert(bytes@ =~= frame_bytes(kind, body@));
    Ok(bytes)
}

/// What a complete header declares: the kind, and the length of the body, refused above the
/// ceiling before anything is allocated for it.
pub open spec fn declared(header: Seq<u8>) -> Result<(Kind, nat), Error> {
    match kind_of(header[0]) {
        None => Err(Error::UnknownFrame { tag: header[0] }),
        Some(kind) => {
            let length = magnitude(header.subrange(1, HEADER as int));
            if length > CEILING {
                Err(Error::TooLarge { length: length as u32 })
            } else {
                Ok((kind, length))
            }
        },
    }
}

/// What one read of the stream came to.
#[derive(Debug)]
pub enum Heard {
    /// The frame is not complete; read on.
    More,
    /// The peer hung up cleanly between frames.
    Goodbye,
    /// A whole frame.
    Frame(Kind, Vec<u8>),
}

/// What one read of the stream came to.
#[verifier::ext_equal]
pub enum HeardView {
    /// The frame is not complete.
    More,
    /// The peer hung up cleanly.
    Goodbye,
    /// A whole frame.
    Frame(Kind, Seq<u8>),
}

impl View for Heard {
    type V = HeardView;

    open spec fn view(&self) -> HeardView {
        match self {
            Heard::More => HeardView::More,
            Heard::Goodbye => HeardView::Goodbye,
            Heard::Frame(kind, body) => HeardView::Frame(*kind, body@),
        }
    }
}

/// How many bytes of a frame are still to come, as far as the bytes held say.
pub open spec fn wanting(held: Seq<u8>) -> nat {
    if held.len() < HEADER {
        (HEADER - held.len()) as nat
    } else {
        match declared(held) {
            Ok((_, length)) => (HEADER + length - held.len()) as nat,
            Err(_) => 0,
        }
    }
}

/// Whether the bytes held are the start of a frame, and not the whole of one.
pub open spec fn partial(held: Seq<u8>) -> bool {
    held.len() < HEADER || match declared(held) {
        Ok((_, length)) => held.len() < HEADER + length,
        Err(_) => false,
    }
}

/// What a read of `chunk` comes to after the bytes held, and the bytes held then. Reading nothing
/// means the peer hung up: nothing at all is a clean goodbye, a partial frame is not.
pub open spec fn hearing(held: Seq<u8>, chunk: Seq<u8>) -> Result<(HeardView, Seq<u8>), Error> {
    let all = held + chunk;
    if chunk.len() == 0 {
        if held.len() == 0 {
            Ok((HeardView::Goodbye, held))
        } else {
            Err(Error::Truncated)
        }
    } else if all.len() < HEADER {
        Ok((HeardView::More, all))
    } else {
        match declared(all) {
            Err(error) => Err(error),
            Ok((kind, length)) => if all.len() < HEADER + length {
                Ok((HeardView::More, all))
            } else {
                Ok((HeardView::Frame(kind, all.skip(HEADER as int)), seq![]))
            },
        }
    }
}

/// Reading frames from a stream that delivers them in pieces.
#[derive(Debug)]
pub struct Incoming {
    held: Vec<u8>,
}

impl Incoming {
    #[verifier::type_invariant]
    spec fn is_partial(self) -> bool {
        partial(self.held@)
    }

    /// The bytes of the current frame that have been read.
    pub closed spec fn held(&self) -> Seq<u8> {
        self.held@
    }

    /// Nothing read yet.
    #[must_use]
    pub fn new() -> (incoming: Self)
        ensures
            incoming.held() == Seq::<u8>::empty(),
    {
        Incoming { held: Vec::new() }
    }

    /// Whether the header of the current frame is complete.
    #[must_use]
    pub fn in_body(&self) -> (in_body: bool)
        ensures
            in_body == (self.held().len() >= HEADER),
    {
        self.held.len() >= HEADER
    }

    /// How many bytes to read next, at most.
    #[must_use]
    pub fn wanted(&self) -> (wanted: usize)
        ensures
            wanted == wanting(self.held()),
            wanted > 0,
            partial(self.held()),
    {
        proof {
            use_type_invariant(self);
        }
        let held: usize = self.held.len();
        if held < HEADER {
            HEADER - held
        } else {
            match read_header(self.held.as_slice()) {
                Ok((_, length)) => HEADER + length - held,
                Err(_) => 0,
            }
        }
    }

    /// Takes in what a read delivered, nothing where the peer hung up.
    pub fn hear(&mut self, chunk: &[u8]) -> (heard: Result<Heard, Error>)
        requires
            chunk@.len() <= wanting(old(self).held()),
        ensures
            match heard {
                Ok(heard) => hearing(old(self).held(), chunk@) == Ok::<
                    (HeardView, Seq<u8>),
                    Error,
                >((heard@, final(self).held())),
                Err(error) => hearing(old(self).held(), chunk@) == Err::<
                    (HeardView, Seq<u8>),
                    Error,
                >(error) && final(self).held() == Seq::<u8>::empty(),
            },
    {
        proof {
            use_type_invariant(&*self);
        }
        let ghost before = self.held@;
        let mut all: Vec<u8> = Vec::new();
        std::mem::swap(&mut all, &mut self.held);
        if chunk.len() == 0 {
            return if all.len() == 0 {
                assert(self.held@ =~= before);
                Ok(Heard::Goodbye)
            } else {
                Err(Error::Truncated)
            };
        }
        put_bytes(&mut all, chunk);
        if all.len() < HEADER {
            self.held = all;
            return Ok(Heard::More);
        }
        let (kind, length) = match read_header(all.as_slice()) {
            Ok(declared) => declared,
            Err(error) => return Err(error),
        };
        if all.len() < HEADER + length {
            self.held = all;
            return Ok(Heard::More);
        }
        let body = all.split_off(HEADER);
        assert(body@ =~= (before + chunk@).skip(HEADER as int));
        Ok(Heard::Frame(kind, body))
    }
}

/// What the first five bytes declare.
fn read_header(header: &[u8]) -> (read: Result<(Kind, usize), Error>)
    requires
        header@.len() >= HEADER,
    ensures
        match read {
            Ok((kind, length)) => declared(header@) == Ok::<(Kind, nat), Error>(
                (kind, length as nat),
            ) && length <= CEILING,
            Err(error) => declared(header@) == Err::<(Kind, nat), Error>(error),
        },
{
    let tag: u8 = header[0];
    let kind = match Kind::from_tag(tag) {
        Some(kind) => kind,
        None => return Err(Error::UnknownFrame { tag }),
    };
    let field = slice_subrange(header, 1, HEADER);
    proof {
        lemma_magnitude_fits(field@);
        lemma_spans();
    }
    let length: u32 = read_big_endian(field) as u32;
    // Checked before the allocation, which is the whole point of the ceiling.
    if length > CEILING {
        return Err(Error::TooLarge { length });
    }
    Ok((kind, length as usize))
}

/// The first frame in everything a peer said before it hung up: nothing where it said nothing.
pub open spec fn frame_in(said: Seq<u8>) -> Result<Option<(Kind, Seq<u8>)>, Error> {
    if said.len() == 0 {
        Ok(None)
    } else if said.len() < HEADER {
        Err(Error::Truncated)
    } else {
        match declared(said) {
            Err(error) => Err(error),
            Ok((kind, length)) => if said.len() < HEADER + length {
                Err(Error::Truncated)
            } else {
                Ok(Some((kind, said.subrange(HEADER as int, HEADER + length))))
            },
        }
    }
}

/// Read one frame out of everything a peer said before it hung up, or `None` when that was
/// nothing.
///
/// Nothing at all is a clean goodbye; a partial frame is not.
pub fn read(said: &[u8]) -> (frame: Result<Option<(Kind, Vec<u8>)>, Error>)
    ensures
        match frame {
            Ok(Some((kind, body))) => frame_in(said@) == Ok::<Option<(Kind, Seq<u8>)>, Error>(
                Some((kind, body@)),
            ),
            Ok(None) => frame_in(said@) == Ok::<Option<(Kind, Seq<u8>)>, Error>(None),
            Err(error) => frame_in(said@) == Err::<Option<(Kind, Seq<u8>)>, Error>(error),
        },
{
    let mut incoming = Incoming::new();
    let mut at: usize = 0;
    assert(said@.take(0) =~= Seq::empty());
    loop
        invariant
            at <= said@.len(),
            incoming.held() == said@.take(at as int),
            at >= HEADER ==> declared(said@) is Ok && declared(said@) == declared(
                said@.take(at as int),
            ),
        decreases said@.len() - at,
    {
        let wanted: usize = incoming.wanted();
        let left: usize = said.len() - at;
        let end: usize = if wanted < left {
            at + wanted
        } else {
            said.len()
        };
        let chunk = slice_subrange(said, at, end);
        let ghost all = said@.take(end as int);
        assert(said@.take(at as int) + chunk@ =~= all);
        proof {
            if end >= HEADER {
                assert(all.subrange(1, HEADER as int) =~= said@.subrange(1, HEADER as int));
                assert(declared(all) == declared(said@));
            }
            assert(chunk@.len() == 0 ==> at == said@.len());
        }
        match incoming.hear(chunk) {
            Ok(Heard::More) => {
                at = end;
            },
            Ok(Heard::Goodbye) => {
                return Ok(None);
            },
            Ok(Heard::Frame(kind, body)) => {
                assert(declared(said@) == Ok::<(Kind, nat), Error>((kind, (end - HEADER) as nat)));
                assert(body@ =~= said@.subrange(HEADER as int, end as int));
                return Ok(Some((kind, body)));
            },
            Err(error) => {
                return Err(error);
            },
        }
    }
}

/// A frame that is written is read back.
pub proof fn law_frames_round_trip(kind: Kind, body: Seq<u8>, after: Seq<u8>)
    requires
        body.len() <= CEILING,
    ensures
        frame_in(frame_bytes(kind, body) + after) == Ok::<Option<(Kind, Seq<u8>)>, Error>(
            Some((kind, body)),
        ),
{
    let frame = frame_bytes(kind, body);
    let said = frame + after;
    lemma_big_endian_len(body.len(), 4);
    lemma_declared(kind, body, frame);
    assert(said.subrange(1, HEADER as int) =~= frame.subrange(1, HEADER as int));
    assert(said.subrange(HEADER as int, HEADER + body.len()) =~= body);
}

/// A kind is read back from its byte, and no other byte names it.
pub proof fn law_kinds_have_their_own_bytes(kind: Kind, tag: u8)
    ensures
        kind_of(kind.byte()) == Some(kind),
        kind_of(tag) == Some(kind) ==> tag == kind.byte(),
{
}

/// What a header says of the frame it opens.
proof fn lemma_declared(kind: Kind, body: Seq<u8>, held: Seq<u8>)
    requires
        body.len() <= CEILING,
        held.len() >= HEADER,
        held.is_prefix_of(frame_bytes(kind, body)),
    ensures
        declared(held) == Ok::<(Kind, nat), Error>((kind, body.len())),
{
    let frame = frame_bytes(kind, body);
    let length = plain32(body.len());
    lemma_spans();
    lemma_magnitude_of_big_endian(body.len(), 4);
    assert(frame =~= seq![kind.byte()] + length + body);
    assert(held.subrange(1, HEADER as int) =~= length);
    assert(held[0] == frame[0]);
}

/// A frame that is written is read back, however the stream splits it: after any part of it, each
/// further piece is more of the same frame, and the last one completes it.
pub proof fn law_frames_survive_any_split(kind: Kind, body: Seq<u8>, from: nat, to: nat)
    requires
        body.len() <= CEILING,
        from < to <= frame_bytes(kind, body).len(),
        to - from <= wanting(frame_bytes(kind, body).take(from as int)),
    ensures
        hearing(
            frame_bytes(kind, body).take(from as int),
            frame_bytes(kind, body).subrange(from as int, to as int),
        ) == Ok::<(HeardView, Seq<u8>), Error>(
            if to < frame_bytes(kind, body).len() {
                (HeardView::More, frame_bytes(kind, body).take(to as int))
            } else {
                (HeardView::Frame(kind, body), Seq::empty())
            },
        ),
{
    let frame = frame_bytes(kind, body);
    let held = frame.take(from as int);
    let chunk = frame.subrange(from as int, to as int);
    let all = held + chunk;
    lemma_big_endian_len(body.len(), 4);
    assert(all =~= frame.take(to as int));
    assert(frame.len() == HEADER + body.len());
    if to >= HEADER {
        lemma_declared(kind, body, all);
        if to == frame.len() {
            assert(all.skip(HEADER as int) =~= body);
        }
    }
}

/// A frame that ends early is truncation and not a goodbye, wherever it ends.
pub proof fn law_partial_frames_are_truncation(kind: Kind, body: Seq<u8>, kept: nat)
    requires
        body.len() <= CEILING,
        0 < kept < frame_bytes(kind, body).len(),
    ensures
        hearing(frame_bytes(kind, body).take(kept as int), Seq::empty()) == Err::<
            (HeardView, Seq<u8>),
            Error,
        >(Error::Truncated),
{
}

/// A declared length is refused above the ceiling and nowhere below it: the line that
/// [`write`](crate::wire::frame::write) draws as well, so what is sent is what would be read.
pub proof fn law_ceiling_is_exact(kind: Kind, length: nat)
    requires
        length <= u32::MAX,
    ensures
        declared(seq![kind.byte()] + plain32(length)) == (if length > CEILING {
            Err::<(Kind, nat), Error>(Error::TooLarge { length: length as u32 })
        } else {
            Ok((kind, length))
        }),
{
    let header = seq![kind.byte()] + plain32(length);
    lemma_spans();
    lemma_magnitude_of_big_endian(length, 4);
    assert(header.subrange(1, HEADER as int) =~= plain32(length));
}

/// A connection opens with six bytes: the four that name the protocol, and the version, which is
/// one and one. A header is five bytes, and a body is no longer than sixteen mebibytes.
pub proof fn law_the_greeting_is_fixed()
    ensures
        GREETING@ + seq![MAJOR, MINOR] == seq![0x54u8, 0x45u8, 0x53u8, 0x53u8, 1u8, 1u8],
        GREETING_BYTES == 6,
        HEADER == 5,
        CEILING == 16 * 1024 * 1024,
{
    assert(GREETING@ + seq![MAJOR, MINOR] =~= seq![0x54u8, 0x45u8, 0x53u8, 0x53u8, 1u8, 1u8]);
}

/// Until a header is whole, what is missing of it is wanted and nothing after it; from then on,
/// what is missing of the body that it declares.
pub proof fn law_no_more_is_wanted_than_the_frame(kind: Kind, body: Seq<u8>, from: nat)
    requires
        body.len() <= 16 * 1024 * 1024,
        from < 5 + body.len(),
    ensures
        frame_bytes(kind, body).len() == 5 + body.len(),
        partial(frame_bytes(kind, body).take(from as int)),
        wanting(frame_bytes(kind, body).take(from as int)) == (if from < 5 {
            5 - from
        } else {
            5 + body.len() - from
        }),
        !partial(frame_bytes(kind, body)),
{
    let frame = frame_bytes(kind, body);
    let held = frame.take(from as int);
    lemma_big_endian_len(body.len(), 4);
    lemma_declared(kind, body, frame);
    if from >= 5 {
        lemma_declared(kind, body, held);
    }
}

/// A frame of a kind that this client does not know is refused by its byte, and one that declares
/// more than sixteen mebibytes by the length it declares, both as soon as the header is whole. A
/// stream that ends between frames is a goodbye, and one that ends within a frame is cut short.
pub proof fn law_frames_are_refused_by_their_header(header: Seq<u8>, rest: Seq<u8>)
    requires
        header.len() == 5,
    ensures
        ({
            let length = magnitude(header.subrange(1, 5));
            let known = 1 <= header[0] <= 5;
            let refused = if !known {
                Some(Error::UnknownFrame { tag: header[0] })
            } else if length > 16 * 1024 * 1024 {
                Some(Error::TooLarge { length: length as u32 })
            } else {
                None
            };
            &&& length <= 0xFFFF_FFFF
            &&& match refused {
                Some(error) => frame_in(header + rest) == Err::<Option<(Kind, Seq<u8>)>, Error>(
                    error,
                ) && hearing(header.take(4), header.skip(4)) == Err::<(HeardView, Seq<u8>), Error>(
                    error,
                ) && hearing(Seq::empty(), header) == Err::<(HeardView, Seq<u8>), Error>(error),
                None => if rest.len() < length {
                    frame_in(header + rest) == Err::<Option<(Kind, Seq<u8>)>, Error>(
                        Error::Truncated,
                    ) && hearing(header + rest, Seq::empty()) == Err::<(HeardView, Seq<u8>), Error>(
                        Error::Truncated,
                    )
                } else {
                    frame_in(header + rest) matches Ok(Some((kind, body))) && body == rest.take(
                        length as int,
                    ) && kind.byte() == header[0]
                },
            }
            &&& frame_in(Seq::empty()) == Ok::<Option<(Kind, Seq<u8>)>, Error>(None)
            &&& hearing(Seq::empty(), Seq::empty()) == Ok::<(HeardView, Seq<u8>), Error>(
                (HeardView::Goodbye, Seq::empty()),
            )
        }),
{
    let said = header + rest;
    lemma_magnitude_fits(header.subrange(1, 5));
    lemma_spans();
    assert(said.subrange(1, 5) =~= header.subrange(1, 5));
    assert(header.take(4) + header.skip(4) =~= header);
    assert(Seq::<u8>::empty() + header =~= header);
    let length = magnitude(header.subrange(1, 5));
    if rest.len() >= length {
        assert(said.subrange(5, (5 + length) as int) =~= rest.take(length as int));
    }
}

}
