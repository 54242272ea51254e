//! What can go wrong, kept apart rather than collapsed.
//!
//! A caller acts on these failures differently. A client that flattens them into one transport
//! error has thrown away the part the caller needed, most sharply with
//! [`Error::NoWritablePeer`], whose remedy is a statement nobody ran rather than anything on the
//! network.

use vstd::prelude::*;
use vstd::string::{to_string_from_display_ensures, StringExecFns};

use crate::text::{decimal, decimal_text, hex, hex_text};

verus! {

/// `std::io::Error`: what an operation on a socket came to. Nothing is claimed of what is inside.
#[verifier::external_type_specification]
#[verifier::external_body]
pub struct ExIoError(std::io::Error);

/// A failure talking to a node.
#[derive(Debug)]
#[non_exhaustive]
pub enum Error {
    /// The socket failed. Retry the transport.
    Io(std::io::Error),
    /// Whatever answered is not one of these nodes.
    ///
    /// The greeting did not begin with the expected magic, so nothing further is attempted: the
    /// alternative is decoding arbitrary bytes as a frame.
    NotThisProtocol,
    /// It is a node, of a version this build does not speak.
    ///
    /// Refused at the greeting rather than discovered mid-conversation.
    WrongVersion {
        /// What the node said.
        found: u8,
        /// What this client implements.
        supported: u8,
    },
    /// A frame kind this build does not have.
    ///
    /// The connection is finished rather than the frame skipped: a protocol that ignores what it
    /// does not understand is one where a version mismatch looks like silence.
    UnknownFrame {
        /// The tag that arrived.
        tag: u8,
    },
    /// A declared length above what this build will read.
    ///
    /// Raised before the allocation, which is the whole point of the ceiling.
    TooLarge {
        /// What was declared.
        length: u32,
    },
    /// The stream ended inside something.
    Truncated,
    /// A body that does not hold what its own header claims.
    Malformed,
    /// A value could not be decoded.
    ///
    /// Distinct from [`Error::Malformed`]: the frame was well formed and the value inside it was
    /// not.
    Encoding {
        /// What the codec objected to.
        reason: EncodingFault,
    },
    /// This node accepts no writes and knows of no peer that does.
    ///
    /// Not a network failure. The remedy is a `DEFINE REPLICA … ROLES writable` nobody ran.
    NoWritablePeer,
    /// The store said no, in its own words, carried through verbatim.
    Refused {
        /// The node's own words.
        message: String,
    },
    /// An HTTP route refused, and the status is how a caller tells why.
    ///
    /// A client branches on the code and never on the sentence: the sentence is written for a
    /// person and embeds the caller's own input. 401 means sign in, 403 means the grants do not
    /// cover this and signing in again never will, and 409 means a store-level conflict that is
    /// worth retrying after a change.
    HttpRefused {
        /// The status the node sent.
        status: u16,
        /// The node's sentence, unwrapped from the JSON that carried it.
        message: String,
    },
    /// The call needs a credential and this handle holds none.
    ///
    /// The only failure here the node never saw. It is raised by the two calls that need a
    /// password rather than merely an identity, before the socket opens, so that a new password
    /// is not put on the wire on an exchange that cannot succeed.
    NoCredential,
}

/// Why a value would not decode.
///
/// Separate from [`Error`] so that a codec fault names the byte-level cause without the transport
/// enum growing a variant per tag.
#[derive(Debug, Clone, Copy, PartialEq, Eq)]
#[non_exhaustive]
pub enum EncodingFault {
    /// The bytes ran out before the value did.
    Truncated,
    /// A type tag this build has no type for.
    ///
    /// Refused rather than guessed at: a codec that infers a type from what follows reads a newer
    /// format as a plausible wrong value, and nothing downstream can tell.
    UnknownTag {
        /// The tag that arrived.
        tag: u8,
    },
    /// Text that is not valid UTF-8.
    InvalidUtf8,
    /// A sub-second component outside the representable range.
    InvalidSubSecond {
        /// What arrived.
        nanos: u32,
    },
    /// A variable-length component that never terminated.
    Unterminated,
    /// An escape sequence that is not one.
    InvalidEscape {
        /// The byte that followed the escape.
        found: u8,
    },
    /// Bytes left over after a complete value.
    ///
    /// An error rather than something to ignore: trailing bytes mean this build and the sender
    /// disagree about the value's shape, and continuing would hand the caller a value that is
    /// right by luck.
    TrailingBytes {
        /// How many were left.
        count: usize,
    },
}

impl From<EncodingFault> for Error {
    fn from(reason: EncodingFault) -> (error: Self) {
        Error::Encoding { reason }
    }
}

impl vstd::std_specs::convert::FromSpecImpl<EncodingFault> for Error {
    open spec fn obeys_from_spec() -> bool {
        true
    }

    open spec fn from_spec(reason: EncodingFault) -> Self {
        Error::Encoding { reason }
    }
}

impl From<std::io::Error> for Error {
    fn from(error: std::io::Error) -> (made: Self) {
        Error::Io(error)
    }
}

impl vstd::std_specs::convert::FromSpecImpl<std::io::Error> for Error {
    open spec fn obeys_from_spec() -> bool {
        true
    }

    open spec fn from_spec(error: std::io::Error) -> Self {
        Error::Io(error)
    }
}

impl EncodingFault {
    /// The fault in words.
    pub open spec fn words(self) -> Seq<char> {
        match self {
            EncodingFault::Truncated => "the value is truncated"@,
            EncodingFault::UnknownTag { tag } => "value tag "@ + hex(tag)
                + " is not one this client knows"@,
            EncodingFault::InvalidUtf8 => "a string is not valid UTF-8"@,
            EncodingFault::InvalidSubSecond { nanos } => decimal(nanos as nat)
                + " is not a representable sub-second value"@,
            EncodingFault::Unterminated => "a variable-length component is unterminated"@,
            EncodingFault::InvalidEscape { found } => hex(found) + " is not a valid escape"@,
            EncodingFault::TrailingBytes { count } => decimal(count as nat)
                + " bytes remain after a complete value"@,
        }
    }

    /// The fault, in words.
    #[must_use]
    pub fn to_string(&self) -> (text: String)
        ensures
            text@ == self.words(),
    {
        match self {
            EncodingFault::Truncated => "the value is truncated".to_owned(),
            EncodingFault::UnknownTag { tag } => "value tag ".to_owned().concat(
                hex_text(*tag).as_str(),
            ).concat(" is not one this client knows"),
            EncodingFault::InvalidUtf8 => "a string is not valid UTF-8".to_owned(),
            EncodingFault::InvalidSubSecond { nanos } => decimal_text(*nanos as u64).concat(
                " is not a representable sub-second value",
            ),
            EncodingFault::Unterminated => "a variable-length component is unterminated".to_owned(),
            EncodingFault::InvalidEscape { found } => hex_text(*found).concat(
                " is not a valid escape",
            ),
            EncodingFault::TrailingBytes { count } => decimal_text(*count as u64).concat(
                " bytes remain after a complete value",
            ),
        }
    }
}

impl Error {
    /// Whether `text` is this failure in words.
    ///
    /// A failure of the socket is in the words of the socket's own error.
    pub open spec fn is_told_by(self, text: Seq<char>) -> bool {
        match self {
            Error::Io(error) => exists|told: String|
                #[trigger] to_string_from_display_ensures::<std::io::Error>(&error, told) && told@
                    == text,
            Error::NotThisProtocol => text == "that is not a TessariDB node"@,
            Error::WrongVersion { found, supported } => text == "that node speaks version "@
                + decimal(found as nat) + "; this client speaks "@ + decimal(supported as nat),
            Error::UnknownFrame { tag } => text == "frame kind "@ + decimal(tag as nat)
                + " is not one this client knows"@,
            Error::TooLarge { length } => text == "a frame declared "@ + decimal(length as nat)
                + " bytes, which is more than this client will read"@,
            Error::Truncated => text == "the connection ended mid-frame"@,
            Error::Malformed => text == "a frame's body is not the shape its header says"@,
            Error::Encoding { reason } => text == "a value could not be decoded: "@
                + reason.words(),
            Error::NoWritablePeer => text
                == "that node does not accept writes, and no peer is declared writable"@,
            Error::Refused { message } => text == message@,
            Error::HttpRefused { status, message } => text == "the node answered "@ + decimal(
                status as nat,
            ) + ": "@ + message@,
            Error::NoCredential => text
                == "this handle presents no credential, and that call needs the current one"@,
        }
    }

    /// The failure, in words.
    #[must_use]
    pub fn to_string(&self) -> (text: String)
        ensures
            self.is_told_by(text@),
    {
        match self {
            Error::Io(error) => error.to_string(),
            Error::NotThisProtocol => "that is not a TessariDB node".to_owned(),
            Error::WrongVersion { found, supported } => "that node speaks version ".to_owned()
                .concat(decimal_text(*found as u64).as_str())
                .concat("; this client speaks ")
                .concat(decimal_text(*supported as u64).as_str()),
            Error::UnknownFrame { tag } => "frame kind ".to_owned()
                .concat(decimal_text(*tag as u64).as_str())
                .concat(" is not one this client knows"),
            Error::TooLarge { length } => "a frame declared ".to_owned()
                .concat(decimal_text(*length as u64).as_str())
                .concat(" bytes, which is more than this client will read"),
            Error::Truncated => "the connection ended mid-frame".to_owned(),
            Error::Malformed => "a frame's body is not the shape its header says".to_owned(),
            Error::Encoding { reason } => "a value could not be decoded: ".to_owned().concat(
                reason.to_string().as_str(),
            ),
            Error::NoWritablePeer =>
                "that node does not accept writes, and no peer is declared writable".to_owned(),
            Error::Refused { message } => message.clone(),
            Error::HttpRefused { status, message } => "the node answered ".to_owned()
                .concat(decimal_text(*status as u64).as_str())
                .concat(": ")
                .concat(message.as_str()),
            Error::NoCredential =>
                "this handle presents no credential, and that call needs the current one".to_owned(),
        }
    }
}

/// An error is told with what it holds, and a refusal in the node's own words.
pub proof fn law_errors_are_told_with_what_they_hold(
    error: Error,
    text: Seq<char>,
    first: u8,
    second: u8,
    length: u32,
)
    requires
        error.is_told_by(text),
    ensures
        error == (Error::WrongVersion { found: first, supported: second }) ==> text
            == "that node speaks version "@ + (decimal(first as nat) + ("; this client speaks "@
            + decimal(second as nat))),
        error == (Error::UnknownFrame { tag: first }) ==> text == "frame kind "@ + (decimal(
            first as nat,
        ) + " is not one this client knows"@),
        error == (Error::TooLarge { length }) ==> text == "a frame declared "@ + (decimal(
            length as nat,
        ) + " bytes, which is more than this client will read"@),
        error matches Error::Refused { message } ==> text == message@,
        error matches Error::HttpRefused { status, message } ==> text == "the node answered "@ + (
        decimal(status as nat) + (": "@ + message@)),
        error is NotThisProtocol ==> text == "that is not a TessariDB node"@,
        error is Truncated ==> text == "the connection ended mid-frame"@,
        error is Malformed ==> text == "a frame's body is not the shape its header says"@,
        error is NoWritablePeer ==> text
            == "that node does not accept writes, and no peer is declared writable"@,
        error is NoCredential ==> text
            == "this handle presents no credential, and that call needs the current one"@,
        error matches Error::Encoding { reason } ==> text == "a value could not be decoded: "@
            + reason.words(),
{
    match error {
        Error::WrongVersion { found, supported } => {
            assert(text =~= "that node speaks version "@ + (decimal(found as nat) + (
            "; this client speaks "@ + decimal(supported as nat))));
        },
        Error::UnknownFrame { tag } => {
            assert(text =~= "frame kind "@ + (decimal(tag as nat)
                + " is not one this client knows"@));
        },
        Error::TooLarge { length } => {
            assert(text =~= "a frame declared "@ + (decimal(length as nat)
                + " bytes, which is more than this client will read"@));
        },
        Error::HttpRefused { status, message } => {
            assert(text =~= "the node answered "@ + (decimal(status as nat) + (": "@ + message@)));
        },
        _ => {},
    }
}

/// Why a value could not be decoded is told with what was found.
pub proof fn law_faults_are_told_with_what_was_found(byte: u8, nanos: u32, count: usize)
    ensures
        (EncodingFault::UnknownTag { tag: byte }).words() == "value tag "@ + (hex(byte)
            + " is not one this client knows"@),
        (EncodingFault::InvalidEscape { found: byte }).words() == hex(byte)
            + " is not a valid escape"@,
        (EncodingFault::InvalidSubSecond { nanos }).words() == decimal(nanos as nat)
            + " is not a representable sub-second value"@,
        (EncodingFault::TrailingBytes { count }).words() == decimal(count as nat)
            + " bytes remain after a complete value"@,
        EncodingFault::Truncated.words() == "the value is truncated"@,
        EncodingFault::InvalidUtf8.words() == "a string is not valid UTF-8"@,
        EncodingFault::Unterminated.words() == "a variable-length component is unterminated"@,
{
    assert((EncodingFault::UnknownTag { tag: byte }).words() =~= "value tag "@ + (hex(byte)
        + " is not one this client knows"@));
}

/// A fault of the codec is an error of the codec, and one of the transport is one of the transport.
pub proof fn law_faults_become_errors(fault: EncodingFault, io: std::io::Error, error: Error)
    ensures
        call_ensures(<Error as From<EncodingFault>>::from, (fault,), error) ==> error == (
        Error::Encoding { reason: fault }),
        call_ensures(<Error as From<std::io::Error>>::from, (io,), error) ==> error == Error::Io(
            io,
        ),
{
}

}
