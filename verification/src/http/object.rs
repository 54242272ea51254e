//! One bucket, and the things worth doing to a file in it.
//!
//! # A file name is a value, and the three names above it are not
//!
//! `/files/{ns}/{db}/{bucket}/{path…}` looks like four path segments and is really two different
//! kinds of thing. The namespace, database and bucket are names: the node interpolates them into a
//! statement, and refuses anything outside `[A-Za-z0-9_]+`. The path is a value, and a file may be
//! called anything at all.
//!
//! That asymmetry is why this module percent-encodes the path and does nothing to the three names.
//! Encoding a name would hide a caller's mistake behind a request the node then refuses for a
//! reason that no longer matches what was typed; leaving the path raw would put a space in an HTTP
//! request line.

use vstd::prelude::*;
use vstd::string::StringExecFns;
use vstd::utf8::encode_utf8;

use crate::error::Error;
use crate::http::{
    refusal, refuses, request_bytes, shown_operations, Operations, OperationsView, Presenting,
};
use crate::http::reply::Reply;
use crate::http::route::Route;
use crate::text::{quoted, quoted_text, IntoText};

verus! {

/// A bucket, and the files in it.
///
/// Holds the three names so that a caller writes them once rather than at every call. Obtained from
/// [`Operations::bucket`].
pub struct Bucket {
    node: Operations,
    namespace: String,
    database: String,
    name: String,
}

/// What a bucket is.
#[verifier::ext_equal]
pub struct BucketView {
    /// The node that serves it.
    pub node: OperationsView,
    /// The namespace.
    pub namespace: Seq<char>,
    /// The database.
    pub database: Seq<char>,
    /// The bucket's own name.
    pub name: Seq<char>,
}

impl View for Bucket {
    type V = BucketView;

    closed spec fn view(&self) -> BucketView {
        BucketView {
            node: self.node@,
            namespace: self.namespace@,
            database: self.database@,
            name: self.name@,
        }
    }
}

/// Whether a byte stands for itself in a request line: the unreserved set, and the slash, because
/// a slash inside a file name is carried to the node as a slash.
pub open spec fn is_kept(byte: u8) -> bool {
    ||| 0x41 <= byte <= 0x5A
    ||| 0x61 <= byte <= 0x7A
    ||| 0x30 <= byte <= 0x39
    ||| byte == 0x2D
    ||| byte == 0x2E
    ||| byte == 0x5F
    ||| byte == 0x7E
    ||| byte == 0x2F
}

/// One hexadecimal digit, in upper case.
pub open spec fn upper_hex(value: nat) -> char {
    if value < 10 {
        (48 + value) as char
    } else {
        (55 + value) as char
    }
}

/// One byte as a request line spells it.
pub open spec fn percent_byte(byte: u8) -> Seq<char> {
    if is_kept(byte) {
        seq![byte as char]
    } else {
        seq!['%', upper_hex((byte / 16) as nat), upper_hex((byte % 16) as nat)]
    }
}

/// Bytes as a request line spells them.
pub open spec fn percent(bytes: Seq<u8>) -> Seq<char>
    decreases bytes.len(),
{
    if bytes.len() == 0 {
        seq![]
    } else {
        percent(bytes.drop_last()) + percent_byte(bytes.last())
    }
}

/// The request target for a file in a bucket.
pub open spec fn route_of(bucket: BucketView, path: Seq<char>) -> Seq<char> {
    "/files/"@ + bucket.namespace + "/"@ + bucket.database + "/"@ + bucket.name + "/"@ + percent(
        encode_utf8(path),
    )
}

/// A bucket as it may be printed.
pub open spec fn shown_bucket(bucket: BucketView) -> Seq<char> {
    "Bucket { node: "@ + shown_operations(bucket.node) + ", namespace: "@ + quoted(
        bucket.namespace,
    ) + ", database: "@ + quoted(bucket.database) + ", name: "@ + quoted(bucket.name) + " }"@
}

impl Bucket {
    /// The bucket of this name, in this database, in this namespace.
    pub(crate) fn new(
        node: Operations,
        namespace: impl IntoText,
        database: impl IntoText,
        name: impl IntoText,
    ) -> (bucket: Self)
        ensures
            bucket@ == (BucketView {
                node: node@,
                namespace: namespace.text(),
                database: database.text(),
                name: name.text(),
            }),
    {
        Bucket {
            node,
            namespace: namespace.into_text(),
            database: database.into_text(),
            name: name.into_text(),
        }
    }

    /// The node that serves this bucket.
    #[must_use]
    pub fn node(&self) -> (node: &Operations)
        ensures
            node@ == self@.node,
    {
        &self.node
    }

    /// The request that writes these bytes to this path, replacing whatever was there.
    ///
    /// The path is taken literally. A leading slash is part of the name, so `"notes.txt"` and
    /// `"/notes.txt"` are two files: a client that quietly tidied one would make a file unreachable
    /// by the name its caller used.
    #[must_use]
    pub fn put(&self, path: &str, bytes: &[u8]) -> (request: Vec<u8>)
        ensures
            request@ == request_bytes(
                self@.node,
                "PUT"@,
                route_of(self@, path@),
                Some(bytes@),
                Presenting::Whatever,
            ),
    {
        let route = self.route(path);
        let method = Route::PutFile.method();
        self.node.request(method, route.as_str(), Some(bytes), Presenting::Whatever)
    }

    /// What the answer to a write comes to.
    pub fn stored(reply: &Reply) -> (stored: Result<(), Error>)
        ensures
            match stored {
                Ok(_) => reply.status == 201,
                Err(error) => reply.status != 201 && refuses(error, reply@),
            },
    {
        if reply.status != 201 {
            return Err(refusal(reply));
        }
        Ok(())
    }

    /// The request that reads a file.
    #[must_use]
    pub fn get(&self, path: &str) -> (request: Vec<u8>)
        ensures
            request@ == request_bytes(
                self@.node,
                "GET"@,
                route_of(self@, path@),
                None,
                Presenting::Whatever,
            ),
    {
        let route = self.route(path);
        self.node.request(Route::GetFile.method(), route.as_str(), None, Presenting::Whatever)
    }

    /// What the answer to a read comes to: the file, or that there is none.
    ///
    /// `None` means the node answered `404`, which on this route is an answer: the file is not
    /// there. It is not the same as a file that is there and empty, which reads back as `Some` of
    /// no bytes.
    pub fn fetched(reply: Reply) -> (fetched: Result<Option<Vec<u8>>, Error>)
        ensures
            match fetched {
                Ok(Some(bytes)) => reply.status == 200 && bytes@ == reply@.body,
                Ok(None) => reply.status == 404,
                Err(error) => reply.status != 200 && reply.status != 404 && refuses(error, reply@),
            },
    {
        if reply.status == 200 {
            Ok(Some(reply.body))
        } else if reply.status == 404 {
            Ok(None)
        } else {
            Err(refusal(&reply))
        }
    }

    /// The request that asks how many bytes a file holds, without transferring it.
    ///
    /// The node routes this and a read to the same handler, so only the caller's network is
    /// spared.
    #[must_use]
    pub fn size(&self, path: &str) -> (request: Vec<u8>)
        ensures
            request@ == request_bytes(
                self@.node,
                "HEAD"@,
                route_of(self@, path@),
                None,
                Presenting::Whatever,
            ),
    {
        let route = self.route(path);
        self.node.request(Route::SizeFile.method(), route.as_str(), None, Presenting::Whatever)
    }

    /// What the answer to a question about a size comes to: the size, or that there is no file.
    ///
    /// A `200` carrying no declared length is [`Error::Malformed`] rather than `None`: answering
    /// `None` there would make a file that exists indistinguishable from one that does not.
    pub fn sized(reply: &Reply) -> (sized: Result<Option<u64>, Error>)
        ensures
            if reply.status == 200 {
                match reply.length {
                    Some(length) => sized matches Ok(Some(size)) && size == length,
                    None => sized matches Err(Error::Malformed),
                }
            } else if reply.status == 404 {
                sized matches Ok(None)
            } else {
                sized matches Err(error) && refuses(error, reply@)
            },
    {
        if reply.status == 200 {
            match reply.length {
                Some(length) => Ok(Some(length)),
                None => Err(Error::Malformed),
            }
        } else if reply.status == 404 {
            Ok(None)
        } else {
            Err(refusal(reply))
        }
    }

    /// The request that removes a file.
    #[must_use]
    pub fn delete(&self, path: &str) -> (request: Vec<u8>)
        ensures
            request@ == request_bytes(
                self@.node,
                "DELETE"@,
                route_of(self@, path@),
                None,
                Presenting::Whatever,
            ),
    {
        let route = self.route(path);
        self.node.request(Route::DeleteFile.method(), route.as_str(), None, Presenting::Whatever)
    }

    /// What the answer to a removal comes to.
    ///
    /// Deleting a file that is not there succeeds, because the node answers `204` either way.
    pub fn deleted(reply: &Reply) -> (deleted: Result<(), Error>)
        ensures
            match deleted {
                Ok(_) => reply.status == 204,
                Err(error) => reply.status != 204 && refuses(error, reply@),
            },
    {
        if reply.status != 204 {
            return Err(refusal(reply));
        }
        Ok(())
    }

    /// The request target for a file in this bucket.
    fn route(&self, path: &str) -> (route: String)
        ensures
            route@ == route_of(self@, path@),
    {
        "/files/".to_owned()
            .concat(self.namespace.as_str())
            .concat("/")
            .concat(self.database.as_str())
            .concat("/")
            .concat(self.name.as_str())
            .concat("/")
            .concat(encode(path).as_str())
    }

    /// The bucket as it may be printed, without the credential its node holds.
    #[must_use]
    pub fn shown(&self) -> (text: String)
        ensures
            text@ == shown_bucket(self@),
    {
        "Bucket { node: ".to_owned()
            .concat(self.node.shown().as_str())
            .concat(", namespace: ")
            .concat(quoted_text(self.namespace.as_str()).as_str())
            .concat(", database: ")
            .concat(quoted_text(self.database.as_str()).as_str())
            .concat(", name: ")
            .concat(quoted_text(self.name.as_str()).as_str())
            .concat(" }")
    }
}

impl Clone for Bucket {
    fn clone(&self) -> (copy: Self)
        ensures
            copy@ == self@,
    {
        Bucket {
            node: self.node.clone(),
            namespace: self.namespace.clone(),
            database: self.database.clone(),
            name: self.name.clone(),
        }
    }
}

fn kept(byte: u8) -> (is: bool)
    ensures
        is == is_kept(byte),
{
    (0x41 <= byte && byte <= 0x5A) || (0x61 <= byte && byte <= 0x7A) || (0x30 <= byte && byte
        <= 0x39) || byte == 0x2D || byte == 0x2E || byte == 0x5F || byte == 0x7E || byte == 0x2F
}

fn upper_hex_char(value: u8) -> (ch: char)
    requires
        value < 16,
    ensures
        ch == upper_hex(value as nat),
{
    if value < 10 {
        (48 + value) as char
    } else {
        (55 + value) as char
    }
}

/// Percent-encode a file path for a request line.
///
/// Everything outside the unreserved set is encoded, and `/` is kept. Encoding more than the
/// minimum is safe: the node decodes, so an over-encoded byte arrives as itself, whereas an
/// under-encoded one is either lost or changes what the request means.
#[must_use]
pub fn encode(path: &str) -> (text: String)
    ensures
        text@ == percent(encode_utf8(path@)),
{
    let bytes = path.as_bytes();
    let mut text = String::new();
    let mut at: usize = 0;
    assert(text@ =~= percent(bytes@.take(0)));
    while at < bytes.len()
        invariant
            at <= bytes@.len(),
            text@ == percent(bytes@.take(at as int)),
        decreases bytes.len() - at,
    {
        let byte: u8 = bytes[at];
        let ghost before = text@;
        let ghost now = bytes@.take(at + 1);
        assert(now.drop_last() =~= bytes@.take(at as int));
        if kept(byte) {
            text.push(byte as char);
        } else {
            text.push('%');
            text.push(upper_hex_char(byte / 16));
            text.push(upper_hex_char(byte % 16));
        }
        at = at + 1;
        assert(text@ =~= before + percent_byte(byte));
    }
    assert(bytes@.take(at as int) =~= bytes@);
    text
}

/// The value of a hexadecimal digit in upper case.
pub open spec fn hex_value(ch: char) -> Option<nat> {
    if '0' <= ch <= '9' {
        Some((ch as u32 - 48) as nat)
    } else if 'A' <= ch <= 'F' {
        Some((ch as u32 - 55) as nat)
    } else {
        None
    }
}

/// What a node decodes of a request line: an escape is the byte it spells, and any other character
/// the byte it is.
pub open spec fn percent_decoded(text: Seq<char>) -> Option<Seq<u8>>
    decreases text.len(),
{
    if text.len() == 0 {
        Some(seq![])
    } else if text[0] != '%' {
        match percent_decoded(text.skip(1)) {
            Some(rest) => Some(seq![text[0] as u8] + rest),
            None => None,
        }
    } else if text.len() < 3 {
        None
    } else {
        match (hex_value(text[1]), hex_value(text[2]), percent_decoded(text.skip(3))) {
            (Some(high), Some(low), Some(rest)) => Some(seq![(16 * high + low) as u8] + rest),
            _ => None,
        }
    }
}

proof fn lemma_percent_first(bytes: Seq<u8>)
    requires
        bytes.len() > 0,
    ensures
        percent(bytes) == percent_byte(bytes[0]) + percent(bytes.drop_first()),
    decreases bytes.len(),
{
    let first = percent_byte(bytes[0]);
    if bytes.len() == 1 {
        assert(bytes.drop_last() =~= Seq::empty());
        assert(bytes.drop_first() =~= Seq::empty());
        assert(percent(bytes) =~= first + percent(bytes.drop_first()));
    } else {
        lemma_percent_first(bytes.drop_last());
        assert(bytes.drop_last().drop_first() =~= bytes.drop_first().drop_last());
        assert(percent(bytes) =~= first + percent(bytes.drop_first()));
    }
}

/// A file is reached by the name its caller used: whatever the name, the node decodes it back from
/// the request line, byte for byte.
pub proof fn law_paths_reach_the_node(bytes: Seq<u8>)
    ensures
        percent_decoded(percent(bytes)) == Some(bytes),
    decreases bytes.len(),
{
    if bytes.len() == 0 {
        assert(bytes =~= Seq::empty());
    } else {
        let rest = bytes.drop_first();
        let spelled = percent(bytes);
        lemma_percent_first(bytes);
        law_paths_reach_the_node(rest);
        assert(seq![bytes[0]] + rest =~= bytes);
        if is_kept(bytes[0]) {
            assert(spelled[0] == bytes[0] as char);
            assert(spelled.skip(1) =~= percent(rest));
        } else {
            assert(spelled[0] == '%');
            assert(spelled[1] == upper_hex((bytes[0] / 16) as nat));
            assert(spelled[2] == upper_hex((bytes[0] % 16) as nat));
            assert(spelled.skip(3) =~= percent(rest));
        }
    }
}

/// Whether a character may stand in a request target.
pub open spec fn fits_a_target(ch: char) -> bool {
    ch == '%' || ((ch as u32) < 0x80 && is_kept(ch as u8))
}

/// No path breaks a request line: whatever it holds, what is written of it is letters, digits,
/// slashes, a few marks and escapes.
pub proof fn law_paths_fit_a_request_line(bytes: Seq<u8>, at: int)
    requires
        0 <= at < percent(bytes).len(),
    ensures
        fits_a_target(percent(bytes)[at]),
    decreases bytes.len(),
{
    if bytes.len() > 0 {
        let before = percent(bytes.drop_last());
        if at < before.len() {
            law_paths_fit_a_request_line(bytes.drop_last(), at);
        } else {
            assert(percent(bytes)[at] == percent_byte(bytes.last())[at - before.len()]);
        }
    }
}

}
