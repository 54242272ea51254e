//! The node's other surface.
//!
//! # Why there are two transports and a caller never picks
//!
//! A node serves two surfaces and neither carries everything. Statements and subscriptions go over
//! the wire protocol, because it carries the store's full model of seventeen value types. Objects,
//! files, backup, health, readiness and metrics go over HTTP, because nothing else serves them.
//!
//! What is not claimed is that this is a general HTTP client. It speaks to one server, whose
//! framing is known, and it refuses what it has not been shown rather than guessing.
//!
//! # There is no TLS here either
//!
//! As on the wire protocol. A node belongs on a network you protect or behind something that
//! terminates TLS.

use vstd::prelude::*;
use vstd::string::StringExecFns;
use vstd::utf8::{decode_utf8, encode_utf8, valid_utf8};

use crate::codec::write::put_bytes;
use crate::error::Error;
use crate::http::basic::{basic_header, header};
use crate::http::condition::condition_in;
use crate::http::json::{count_at, find_count, find_text, said, text_at};
use crate::http::laws::law_numbers_are_read_as_written;
use crate::http::line::{is_inner, law_trimming_takes_white_space_away, number_of, trim, trimmed};
use crate::http::reply::{Reply, ReplyView};
use crate::http::route::tries_of;
use crate::text::{
    decimal, decimal_text, lossy, lossy_text, quoted, quoted_text, text_of_bytes, IntoText,
};

pub mod basic;
pub mod condition;
pub mod heard;
pub mod json;
pub mod kept;
pub mod laws;
pub mod line;
pub mod object;
pub mod reply;
pub mod route;
pub mod sent;

pub use crate::http::condition::Condition;
pub use crate::http::object::Bucket;
pub use crate::http::route::Route;

verus! {

/// The node's operational surface.
///
/// Holds an address rather than a connection: these calls are occasional and independent, so a
/// connection per call costs nothing worth keeping a pool for.
///
/// Each call is two halves: a method that gives the bytes of the request, and one that says what
/// the reply comes to. What carries the one to the node and brings back the other is the caller's.
pub struct Operations {
    address: String,
    credential: Option<Credential>,
    session: Option<String>,
    attempts: u8,
}

/// Who a handle signs in as, and the header that says so.
///
/// The name is kept because a change of password has to build a new header afterwards and cannot
/// recover the name from the old one.
struct Credential {
    name: String,
    header: String,
}

/// What a handle holds.
#[verifier::ext_equal]
pub struct OperationsView {
    /// Where the node is.
    pub address: Seq<char>,
    /// A name, and the header built from it and a password.
    pub credential: Option<(Seq<char>, Seq<char>)>,
    /// The header of a session's token.
    pub session: Option<Seq<char>>,
    /// How often a request is tried in total.
    pub attempts: u8,
}

impl View for Operations {
    type V = OperationsView;

    closed spec fn view(&self) -> OperationsView {
        OperationsView {
            address: self.address@,
            credential: match self.credential {
                Some(held) => Some((held.name@, held.header@)),
                None => None,
            },
            session: said(self.session),
            attempts: self.attempts,
        }
    }
}

/// Which credential a request presents.
///
/// Two routes, the one that opens a session and the one that changes a password, refuse a token by
/// design, and both are reachable from a handle that is holding one. So the route decides.
#[derive(Debug, Clone, Copy, PartialEq, Eq)]
pub enum Presenting {
    /// The session token when the handle holds one, and the password otherwise.
    Whatever,
    /// The password, always, even while a session is open.
    PasswordOnly,
}

/// What a request presents, where anything.
pub open spec fn presented(node: OperationsView, presenting: Presenting) -> Option<Seq<char>> {
    match (presenting, node.session, node.credential) {
        (Presenting::Whatever, Some(bearer), _) => Some(bearer),
        (_, _, Some((_, header))) => Some(header),
        (_, _, None) => None,
    }
}

/// A header line, where there is a value.
pub open spec fn header_line(name: Seq<char>, value: Option<Seq<char>>) -> Seq<char> {
    match value {
        Some(value) => name + value + "\r\n"@,
        None => seq![],
    }
}

/// What stands before the body of a request.
///
/// A request with no body declares no length, which is not the same as one with an empty body: an
/// empty file is written by declaring a length of zero.
pub open spec fn request_head(
    node: OperationsView,
    method: Seq<char>,
    path: Seq<char>,
    length: Option<nat>,
    presenting: Presenting,
) -> Seq<char> {
    method + " "@ + path + " HTTP/1.1\r\nHost: "@ + node.address + "\r\nConnection: close\r\n"@
        + header_line("Authorization: "@, presented(node, presenting)) + header_line(
        "Content-Length: "@,
        match length {
            Some(length) => Some(decimal(length)),
            None => None,
        },
    ) + "\r\n"@
}

/// The bytes of a request.
pub open spec fn request_bytes(
    node: OperationsView,
    method: Seq<char>,
    path: Seq<char>,
    body: Option<Seq<u8>>,
    presenting: Presenting,
) -> Seq<u8> {
    match body {
        Some(body) => encode_utf8(
            request_head(node, method, path, Some(body.len()), presenting),
        ) + body,
        None => encode_utf8(request_head(node, method, path, None, presenting)),
    }
}

/// Whether a failure means the exchange did not complete: the socket failed, or the stream ended
/// inside the answer.
///
/// Everything else is something that did arrive, and repeating the request cannot change it.
pub open spec fn is_retryable(failure: Error) -> bool {
    failure is Io || failure is Truncated
}

/// Whether a call is made again, where so many attempts were made of so many allowed and the last
/// of them came to `outcome`.
pub open spec fn is_made_again(made: nat, allowed: nat, outcome: Result<Reply, Error>) -> bool {
    outcome matches Err(failure) && is_retryable(failure) && made < allowed
}

/// A request that is tried until it is answered, or until asking again is pointless.
#[derive(Debug)]
pub struct Trying {
    made: u8,
    allowed: u8,
}

/// What an attempt leads to.
#[derive(Debug)]
pub enum Verdict {
    /// Another attempt, after a pause.
    Again,
    /// The outcome of the last one.
    Settled(Result<Reply, Error>),
}

impl Trying {
    /// How many attempts have been made, the current one included.
    pub closed spec fn made(&self) -> nat {
        self.made as nat
    }

    /// How many attempts there may be.
    pub closed spec fn allowed(&self) -> nat {
        self.allowed as nat
    }

    /// The first attempt at a call: as many may follow as the handle allows, and none where the
    /// call is one that is asked for once.
    #[must_use]
    pub fn new(route: Route, node: &Operations) -> (trying: Self)
        ensures
            trying.made() == 1,
            trying.allowed() == tries_of(route, node@.attempts),
            trying.made() <= trying.allowed(),
    {
        proof {
            use_type_invariant(node);
        }
        Trying { made: 1, allowed: route.tries(node.attempts) }
    }

    /// What the outcome of the current attempt leads to.
    ///
    /// Anything the node actually said is settled: a `401` retried is a loop and a `403` retried is
    /// a longer one.
    pub fn judge(&mut self, outcome: Result<Reply, Error>) -> (verdict: Verdict)
        ensures
            final(self).allowed() == old(self).allowed(),
            if is_made_again(old(self).made(), old(self).allowed(), outcome) {
                verdict == Verdict::Again && final(self).made() == old(self).made() + 1
            } else {
                verdict == Verdict::Settled(outcome) && final(self).made() == old(self).made()
            },
            old(self).made() <= old(self).allowed() ==> final(self).made() <= final(self).allowed(),
    {
        match outcome {
            Err(failure) => if retryable(&failure) && self.made < self.allowed {
                self.made = self.made + 1;
                Verdict::Again
            } else {
                Verdict::Settled(Err(failure))
            },
            answered => Verdict::Settled(answered),
        }
    }
}

/// Whether a failure means the exchange did not complete.
#[must_use]
pub fn retryable(failure: &Error) -> (is: bool)
    ensures
        is == is_retryable(*failure),
{
    match failure {
        Error::Io(_) => true,
        Error::Truncated => true,
        _ => false,
    }
}

/// The sentence that was found in a refusal, or its body as text.
pub open spec fn sentence_of(found: Option<Seq<char>>, body: Seq<u8>) -> Seq<char> {
    match found {
        Some(sentence) => sentence,
        None => trimmed(lossy(body)),
    }
}

/// The sentence of a refusal.
pub open spec fn sentence_in(body: Seq<u8>) -> Seq<char> {
    sentence_of(text_at(body, "error"@), body)
}

/// Whether an error is the refusal that a reply is.
pub open spec fn refuses(error: Error, reply: ReplyView) -> bool {
    error matches Error::HttpRefused { status, message } && status == reply.status && message@
        == sentence_in(reply.body)
}

/// The sentence that was found in a refusal, or its body as text.
///
/// The fallback is for a refusal that is not the object a node sends. Something between the caller
/// and the node answers in its own words, and those words are worth showing.
#[must_use]
pub fn sentence_or_body(found: Option<String>, body: &[u8]) -> (sentence: String)
    ensures
        sentence@ == sentence_of(said(found), body@),
{
    match found {
        Some(sentence) => sentence,
        None => trim(lossy_text(body).as_str()),
    }
}

/// The node's sentence, unwrapped from the JSON that carried it.
///
/// Every refusal the protocol answers as JSON is the same single-field object, `{"error": "…"}`.
/// Handing that object to a caller as the error message leaves them reading punctuation, so it is
/// unwrapped here, once.
#[must_use]
pub fn sentence(body: &[u8]) -> (text: String)
    ensures
        text@ == sentence_in(body@),
{
    sentence_or_body(find_text(body, "error"), body)
}

/// The node said no, over HTTP, with a status.
///
/// The status is carried as a field rather than folded into the sentence, because a client
/// branches on the code.
#[must_use]
pub fn refusal(reply: &Reply) -> (error: Error)
    ensures
        refuses(error, reply@),
{
    Error::HttpRefused { status: reply.status, message: sentence(reply.body.as_slice()) }
}

/// What is printed in place of a credential.
pub open spec fn credential_mark(held: bool) -> Seq<char> {
    if held {
        "\"<present>\""@
    } else {
        "\"<none>\""@
    }
}

/// What is printed in place of a token.
pub open spec fn session_mark(open: bool) -> Seq<char> {
    if open {
        "\"<open>\""@
    } else {
        "\"<none>\""@
    }
}

/// A handle as it may be printed: the presence of a credential is reported and its value never is.
pub open spec fn shown_operations(node: OperationsView) -> Seq<char> {
    "Operations { address: "@ + quoted(node.address) + ", credential: "@ + credential_mark(
        node.credential is Some,
    ) + ", session: "@ + session_mark(node.session is Some) + ", attempts: "@ + decimal(
        node.attempts as nat,
    ) + " }"@
}

/// The path of a backup, of everything or of what was committed after a sequence.
pub open spec fn backup_path(from: Option<u64>) -> Seq<char> {
    match from {
        Some(from) => "/backup?from="@ + decimal(from as nat),
        None => "/backup"@,
    }
}

impl Operations {
    #[verifier::type_invariant]
    spec fn asks_at_all(self) -> bool {
        self.attempts >= 1
    }

    /// The operational surface of the node at this address.
    ///
    /// This is the node's HTTP address, which is not its wire address. No credential is sent: a
    /// store with no user runs anything, and against one of those an absent header is the correct
    /// request. Add credentials with [`as_user`](Self::as_user) when the store has a user.
    pub fn at(address: impl IntoText) -> (node: Self)
        ensures
            node@ == (OperationsView {
                address: address.text(),
                credential: None,
                session: None,
                attempts: 1,
            }),
    {
        Operations { address: address.into_text(), credential: None, session: None, attempts: 1 }
    }

    /// Try a failed request up to `attempts` times in total.
    ///
    /// The default is 1: nothing is retried unless it is asked for. Zero would mean never asking
    /// at all, and is taken as one.
    ///
    /// Only a failure after which re-asking is safe is retried, see [`Trying::judge`]. Opening a
    /// session, changing a password and taking a backup are exempt, see [`Route::tries`]: an answer
    /// lost on the way back leaves a token nobody holds, a credential already invalidated, or a
    /// copy already half delivered.
    #[must_use]
    pub fn attempts(self, attempts: u8) -> (node: Self)
        ensures
            node@ == (OperationsView {
                attempts: if attempts == 0 {
                    1
                } else {
                    attempts
                },
                ..self@
            }),
    {
        Operations {
            address: self.address,
            credential: self.credential,
            session: self.session,
            attempts: if attempts == 0 {
                1
            } else {
                attempts
            },
        }
    }

    /// Present these credentials on every request this handle makes.
    ///
    /// Taken once and held, rather than passed at each call. The header is built here, so the
    /// plaintext password stops existing inside this crate the moment the handle is made.
    ///
    /// Any session open here belongs to whoever this handle was before, and is dropped: a token
    /// outranks the credential on every ordinary route.
    #[must_use]
    pub fn as_user(self, name: &str, password: &str) -> (node: Self)
        ensures
            node@ == (OperationsView {
                credential: Some((name@, basic_header(name@, password@))),
                session: None,
                ..self@
            }),
    {
        proof {
            use_type_invariant(&self);
        }
        Operations {
            address: self.address,
            credential: Some(Credential { name: name.to_owned(), header: header(name, password) }),
            session: None,
            attempts: self.attempts,
        }
    }

    /// The address of the node.
    #[must_use]
    pub fn address(&self) -> (address: &str)
        ensures
            address@ == self@.address,
    {
        self.address.as_str()
    }

    /// The bytes of a request.
    ///
    /// `Host` is required of an HTTP/1.1 request, and `Connection: close` says that this connection
    /// carries one exchange. The authorization is absent rather than empty when there is nothing to
    /// present.
    #[must_use]
    pub fn request(
        &self,
        method: &str,
        path: &str,
        body: Option<&[u8]>,
        presenting: Presenting,
    ) -> (request: Vec<u8>)
        ensures
            request@ == request_bytes(
                self@,
                method@,
                path@,
                match body {
                    Some(body) => Some(body@),
                    None => None,
                },
                presenting,
            ),
    {
        let mut head = method.to_owned()
            .concat(" ")
            .concat(path)
            .concat(" HTTP/1.1\r\nHost: ")
            .concat(self.address.as_str())
            .concat("\r\nConnection: close\r\n");
        let ghost opening = head@;
        match (presenting, &self.session, &self.credential) {
            (Presenting::Whatever, Some(bearer), _) => {
                head.append("Authorization: ");
                head.append(bearer.as_str());
                head.append("\r\n");
            },
            (_, _, Some(held)) => {
                head.append("Authorization: ");
                head.append(held.header.as_str());
                head.append("\r\n");
            },
            (_, _, None) => {},
        }
        assert(head@ =~= opening + header_line("Authorization: "@, presented(self@, presenting)));
        let ghost authorized = head@;
        let ghost length = match body {
            Some(bytes) => Some(bytes@.len()),
            None => None,
        };
        if let Some(bytes) = body {
            head.append("Content-Length: ");
            head.append(decimal_text(bytes.len() as u64).as_str());
            head.append("\r\n");
        }
        assert(head@ =~= authorized + header_line(
            "Content-Length: "@,
            match length {
                Some(length) => Some(decimal(length)),
                None => None,
            },
        ));
        head.append("\r\n");
        assert(head@ =~= request_head(self@, method@, path@, length, presenting));
        let mut request: Vec<u8> = Vec::new();
        put_bytes(&mut request, head.as_str().as_bytes());
        assert(request@ =~= encode_utf8(head@));
        if let Some(bytes) = body {
            put_bytes(&mut request, bytes);
        }
        request
    }

    /// The request that spends the password once, to hold a token instead.
    ///
    /// The node verifies a password with a deliberately slow hash, and HTTP gives it no connection
    /// to remember the answer on, so a handle presenting a password pays that on every request.
    ///
    /// A handle with no credential has no password to spend, and nothing is sent. This call is not
    /// to be retried: an answer lost on the way back leaves a token nobody holds, and asking again
    /// would mint a second.
    pub fn open_session(&self) -> (request: Result<Vec<u8>, Error>)
        ensures
            match request {
                Ok(request) => self@.credential is Some && request@ == request_bytes(
                    self@,
                    "POST"@,
                    "/session"@,
                    None,
                    Presenting::PasswordOnly,
                ),
                Err(error) => self@.credential is None && error == Error::NoCredential,
            },
    {
        if self.credential.is_none() {
            return Err(Error::NoCredential);
        }
        Ok(self.request(Route::OpenSession.method(), "/session", None, Presenting::PasswordOnly))
    }

    /// Holds the token that an answer carried, and gives back its lifetime in seconds.
    ///
    /// An answer that carries no token leaves the handle as it was. An absent lifetime is zero
    /// rather than fatal: it is not worth refusing a working token over.
    pub fn hold_session(&mut self, token: Option<String>, expires_in: Option<u64>) -> (held: Result<
        u64,
        Error,
    >)
        ensures
            match token {
                Some(token) => held == Ok::<u64, Error>(
                    match expires_in {
                        Some(seconds) => seconds,
                        None => 0,
                    },
                ) && final(self)@ == (OperationsView {
                    session: Some("Bearer "@ + token@),
                    ..old(self)@
                }),
                None => held == Err::<u64, Error>(Error::Malformed) && final(self)@ == old(self)@,
            },
    {
        proof {
            use_type_invariant(&*self);
        }
        match token {
            Some(token) => {
                // The header is built once and held, the same way the password's is.
                let bearer = "Bearer ".to_owned().concat(token.as_str());
                self.session = Some(bearer);
                match expires_in {
                    Some(seconds) => Ok(seconds),
                    None => Ok(0),
                }
            },
            None => Err(Error::Malformed),
        }
    }

    /// What the answer to opening a session comes to: the token's lifetime in seconds from now, as
    /// the node reported it.
    pub fn session_opened(&mut self, reply: &Reply) -> (opened: Result<u64, Error>)
        ensures
            if reply.status != 200 {
                (opened matches Err(error) && refuses(error, reply@)) && final(self)@ == old(self)@
            } else {
                match text_at(reply@.body, "token"@) {
                    Some(token) => opened == Ok::<u64, Error>(
                        match count_at(reply@.body, "expires_in"@) {
                            Some(seconds) => seconds,
                            None => 0,
                        },
                    ) && final(self)@ == (OperationsView {
                        session: Some("Bearer "@ + token),
                        ..old(self)@
                    }),
                    None => opened == Err::<u64, Error>(Error::Malformed) && final(self)@ == old(
                        self,
                    )@,
                }
            },
    {
        if reply.status != 200 {
            return Err(refusal(reply));
        }
        let token = find_text(reply.body.as_slice(), "token");
        let expires_in = find_count(reply.body.as_slice(), "expires_in");
        self.hold_session(token, expires_in)
    }

    /// The request that gives the token back, where this handle holds one.
    ///
    /// The token has to be held still while this is sent: it travels in the header and is the only
    /// thing the node has to identify what to forget.
    #[must_use]
    pub fn close_session(&self) -> (request: Option<Vec<u8>>)
        ensures
            match request {
                Some(request) => self@.session is Some && request@ == request_bytes(
                    self@,
                    "DELETE"@,
                    "/session"@,
                    None,
                    Presenting::Whatever,
                ),
                None => self@.session is None,
            },
    {
        if self.session.is_none() {
            return None;
        }
        Some(self.request(Route::CloseSession.method(), "/session", None, Presenting::Whatever))
    }

    /// What giving the token back came to. The session is dropped whatever the node answered: this
    /// client has decided not to present that token again.
    pub fn session_closed(&mut self, outcome: Result<Reply, Error>) -> (closed: Result<(), Error>)
        ensures
            final(self)@ == (OperationsView { session: None, ..old(self)@ }),
            match outcome {
                Err(failure) => closed == Err::<(), Error>(failure),
                Ok(reply) => match closed {
                    Ok(_) => reply.status == 200,
                    Err(error) => reply.status != 200 && refuses(error, reply@),
                },
            },
    {
        proof {
            use_type_invariant(&*self);
        }
        self.session = None;
        match outcome {
            Err(failure) => Err(failure),
            Ok(reply) => {
                if reply.status != 200 {
                    return Err(refusal(&reply));
                }
                Ok(())
            },
        }
    }

    /// The request that changes this user's own password: its body is the new one, and the current
    /// one signs for it.
    ///
    /// A handle without a credential is refused before anything is sent: it would be putting a
    /// secret on the wire for a request that cannot succeed. This call is not to be retried: if the
    /// answer is lost, the password may have changed already, and the second attempt would present
    /// a credential that the first one invalidated.
    pub fn change_password(&self, new: &str) -> (request: Result<Vec<u8>, Error>)
        ensures
            match request {
                Ok(request) => self@.credential is Some && request@ == request_bytes(
                    self@,
                    "POST"@,
                    "/password"@,
                    Some(encode_utf8(new@)),
                    Presenting::PasswordOnly,
                ),
                Err(error) => self@.credential is None && error == Error::NoCredential,
            },
    {
        if self.credential.is_none() {
            return Err(Error::NoCredential);
        }
        Ok(
            self.request(
                Route::ChangePassword.method(),
                "/password",
                Some(new.as_bytes()),
                Presenting::PasswordOnly,
            ),
        )
    }

    /// What the answer to a change of password comes to.
    ///
    /// The one call whose success invalidates the credential that authorised it. On success the
    /// handle presents the new password, and any session is dropped, because the node ended every
    /// token this user held. On a refusal the handle is exactly as it was.
    pub fn password_changed(&mut self, new: &str, reply: &Reply) -> (changed: Result<(), Error>)
        ensures
            match old(self)@.credential {
                None => changed matches Err(Error::NoCredential) && final(self)@ == old(self)@,
                Some((name, _)) => if reply.status == 200 {
                    changed is Ok && final(self)@ == (OperationsView {
                        credential: Some((name, basic_header(name, new@))),
                        session: None,
                        ..old(self)@
                    })
                } else {
                    (changed matches Err(error) && refuses(error, reply@)) && final(self)@ == old(
                        self,
                    )@
                },
            },
    {
        proof {
            use_type_invariant(&*self);
        }
        let name = match &self.credential {
            Some(held) => held.name.clone(),
            None => return Err(Error::NoCredential),
        };
        if reply.status != 200 {
            return Err(refusal(reply));
        }
        let next = header(name.as_str(), new);
        self.credential = Some(Credential { name, header: next });
        self.session = None;
        Ok(())
    }

    /// The request for a backup of the whole store.
    ///
    /// Its answer is to be passed on as it arrives, see
    /// [`Head::following_into`](crate::http::reply::Head::following_into), and the call is not to
    /// be retried: the first answer is already in the caller's sink.
    #[must_use]
    pub fn backup(&self) -> (request: Vec<u8>)
        ensures
            request@ == request_bytes(
                self@,
                "GET"@,
                backup_path(None),
                None,
                Presenting::Whatever,
            ),
    {
        self.request(Route::Backup.method(), "/backup", None, Presenting::Whatever)
    }

    /// The request for a backup of everything committed after `from`, which is a commit position
    /// rather than a byte offset.
    #[must_use]
    pub fn backup_from(&self, from: u64) -> (request: Vec<u8>)
        ensures
            request@ == request_bytes(
                self@,
                "GET"@,
                backup_path(Some(from)),
                None,
                Presenting::Whatever,
            ),
    {
        let path = "/backup?from=".to_owned().concat(decimal_text(from).as_str());
        self.request(Route::Backup.method(), path.as_str(), None, Presenting::Whatever)
    }

    /// What the answer to a backup comes to: how many bytes were passed on.
    pub fn backed_up(reply: &Reply) -> (written: Result<u64, Error>)
        ensures
            if reply.status != 200 {
                written matches Err(error) && refuses(error, reply@)
            } else {
                match reply.length {
                    Some(length) => written == Ok::<u64, Error>(length),
                    None => written == Err::<u64, Error>(Error::Malformed),
                }
            },
    {
        if reply.status != 200 {
            return Err(refusal(reply));
        }
        match reply.length {
            Some(length) => Ok(length),
            None => Err(Error::Malformed),
        }
    }

    /// The bucket of this name, in this database, in this namespace.
    ///
    /// Nothing is checked here and nothing is reached: the three names are carried to the node,
    /// which is the only party that knows whether they exist.
    pub fn bucket(
        &self,
        namespace: impl IntoText,
        database: impl IntoText,
        name: impl IntoText,
    ) -> (bucket: Bucket)
        ensures
            bucket@ == (crate::http::object::BucketView {
                node: self@,
                namespace: namespace.text(),
                database: database.text(),
                name: name.text(),
            }),
    {
        Bucket::new(self.clone(), namespace, database, name)
    }

    /// The request for what the node reports about itself, in the Prometheus text format.
    #[must_use]
    pub fn metrics(&self) -> (request: Vec<u8>)
        ensures
            request@ == request_bytes(self@, "GET"@, "/metrics"@, None, Presenting::Whatever),
    {
        self.request(Route::Metrics.method(), "/metrics", None, Presenting::Whatever)
    }

    /// What the answer to a request for metrics comes to: the text as the node wrote it.
    pub fn metrics_read(reply: Reply) -> (read: Result<String, Error>)
        ensures
            if !(200 <= reply.status < 300) {
                read matches Err(error) && refuses(error, reply@)
            } else if valid_utf8(reply@.body) {
                read matches Ok(text) && text@ == decode_utf8(reply@.body)
            } else {
                read matches Err(Error::Malformed)
            },
    {
        if reply.status < 200 || reply.status >= 300 {
            return Err(refusal(&reply));
        }
        match text_of_bytes(reply.body) {
            Some(text) => Ok(text),
            None => Err(Error::Malformed),
        }
    }

    /// The request that asks whether the store behind this node is well.
    ///
    /// A failing liveness probe means that the node is to be restarted.
    #[must_use]
    pub fn health(&self) -> (request: Vec<u8>)
        ensures
            request@ == request_bytes(self@, "GET"@, "/health"@, None, Presenting::Whatever),
    {
        self.request(Route::Health.method(), "/health", None, Presenting::Whatever)
    }

    /// The request that asks whether this node will take new work now.
    ///
    /// A failing readiness probe means that no traffic is to be sent here: the node is still
    /// running and may be perfectly well.
    #[must_use]
    pub fn ready(&self) -> (request: Vec<u8>)
        ensures
            request@ == request_bytes(self@, "GET"@, "/ready"@, None, Presenting::Whatever),
    {
        self.request(Route::Ready.method(), "/ready", None, Presenting::Whatever)
    }

    /// What the answer of one of the condition routes comes to, where 503 is an answer.
    ///
    /// These two routes report a refusal to serve as their content. Every other status is still a
    /// refusal.
    pub fn condition_read(reply: &Reply) -> (read: Result<Condition, Error>)
        ensures
            if reply.status != 200 && reply.status != 503 {
                read matches Err(error) && refuses(error, reply@)
            } else {
                match read {
                    Ok(condition) => condition_in(reply@.body) == Some(condition@),
                    Err(error) => error == Error::Malformed && condition_in(reply@.body) is None,
                }
            },
    {
        if reply.status != 200 && reply.status != 503 {
            return Err(refusal(reply));
        }
        Condition::read(reply.body.as_slice())
    }

    /// The handle as it may be printed.
    ///
    /// The header is base64, which is a spelling of the password and not a disguise for it. So the
    /// presence of a credential is reported and its value never is: having sent none is the single
    /// most likely cause of a `401`, and a handle with a credential and no session is correct and
    /// slow.
    #[must_use]
    pub fn shown(&self) -> (text: String)
        ensures
            text@ == shown_operations(self@),
    {
        let credential = match &self.credential {
            Some(_) => "\"<present>\"",
            None => "\"<none>\"",
        };
        let session = match &self.session {
            Some(_) => "\"<open>\"",
            None => "\"<none>\"",
        };
        "Operations { address: ".to_owned()
            .concat(quoted_text(self.address.as_str()).as_str())
            .concat(", credential: ")
            .concat(credential)
            .concat(", session: ")
            .concat(session)
            .concat(", attempts: ")
            .concat(decimal_text(self.attempts as u64).as_str())
            .concat(" }")
    }
}

impl Clone for Operations {
    fn clone(&self) -> (copy: Self)
        ensures
            copy@ == self@,
    {
        proof {
            use_type_invariant(self);
        }
        let credential = match &self.credential {
            Some(held) => Some(
                Credential { name: held.name.clone(), header: held.header.clone() },
            ),
            None => None,
        };
        let session = match &self.session {
            Some(bearer) => Some(bearer.clone()),
            None => None,
        };
        Operations {
            address: self.address.clone(),
            credential,
            session,
            attempts: self.attempts,
        }
    }
}

/// Printing a handle shows no secret: handles at one address that hold a credential or none, a
/// session or none, and are tried as often, print the same, whatever the secrets are.
pub proof fn law_printing_a_handle_shows_no_secret(node: OperationsView, other: OperationsView)
    requires
        node.address == other.address,
        node.credential is Some == other.credential is Some,
        node.session is Some == other.session is Some,
        node.attempts == other.attempts,
    ensures
        shown_operations(node) == shown_operations(other),
{
}

/// Printing a handle tells whether it holds a credential and whether a session is open: handles at
/// one address of which only one does print differently.
pub proof fn law_printing_a_handle_tells_what_it_presents(
    node: OperationsView,
    other: OperationsView,
)
    requires
        node.address == other.address,
        node.credential is Some != other.credential is Some || node.session is Some
            != other.session is Some,
    ensures
        shown_operations(node) != shown_operations(other),
{
    reveal_strlit("\"<present>\"");
    reveal_strlit("\"<none>\"");
    reveal_strlit("\"<open>\"");
    let opening = "Operations { address: "@ + quoted(node.address) + ", credential: "@;
    let marked = opening.len() as int + 2;
    let a = shown_operations(node);
    let b = shown_operations(other);
    if node.credential is Some != other.credential is Some {
        assert(a[marked] != b[marked]);
    } else {
        let held = credential_mark(node.credential is Some);
        let further = (opening + held + ", session: "@).len() as int + 2;
        assert(a[further] != b[further]);
    }
}

/// A token is never offered to the routes that refuse one: what they are presented with is the
/// password, session or none.
pub proof fn law_password_routes_see_no_token(node: OperationsView)
    ensures
        presented(node, Presenting::PasswordOnly) == (match node.credential {
            Some((_, header)) => Some(header),
            None => None,
        }),
{
}

/// While a session is open the token stands in for the password on every ordinary route.
pub proof fn law_sessions_stand_in_for_passwords(node: OperationsView)
    requires
        node.session is Some,
    ensures
        presented(node, Presenting::Whatever) == node.session,
{
}

/// Whatever the node answered is not asked for again.
pub proof fn law_answers_are_not_retried(failure: Error)
    requires
        failure is HttpRefused || failure is Malformed || failure is TooLarge
            || failure is NotThisProtocol,
    ensures
        !is_retryable(failure),
{
}

/// Opening a session, changing a password and taking a backup are never asked for twice, however
/// many attempts a handle allows and whatever became of the first. Nor is giving a token back.
pub proof fn law_exempt_calls_are_made_once(
    route: Route,
    attempts: u8,
    outcome: Result<Reply, Error>,
)
    requires
        route is OpenSession || route is ChangePassword || route is Backup || route is CloseSession,
    ensures
        !is_made_again(1, tries_of(route, attempts) as nat, outcome),
{
}

/// Every other call is made again after a failure of the transport, for as long as the handle
/// allows.
pub proof fn law_other_calls_are_made_again(route: Route, attempts: u8, made: nat, failure: Error)
    requires
        !route.is_asked_once(),
        is_retryable(failure),
        made < attempts,
    ensures
        is_made_again(made, tries_of(route, attempts) as nat, Err(failure)),
{
}

/// A call is made again after exactly the failures that say nothing of what the node made of it: a
/// transport that failed and an answer that was cut short. It is made again only while fewer
/// attempts were made than its handle allows, and an answer, whatever it says, ends it.
pub proof fn law_only_lost_answers_are_asked_for_again(
    route: Route,
    attempts: u8,
    made: nat,
    failure: Error,
    reply: Reply,
)
    ensures
        is_made_again(made, tries_of(route, attempts) as nat, Err(failure)) <==> (failure is Io
            || failure is Truncated) && made < (match route {
            Route::OpenSession
            | Route::CloseSession
            | Route::ChangePassword
            | Route::Backup => 1,
            _ => attempts as nat,
        }),
        !is_made_again(made, tries_of(route, attempts) as nat, Ok(reply)),
{
}

/// What is said of a refusal is the sentence under `error`, where the body holds one, and the whole
/// body as text, without the white space around it, where it does not.
pub proof fn law_refusals_are_told_by_their_sentence(error: Error, reply: ReplyView)
    requires
        refuses(error, reply),
    ensures
        error matches Error::HttpRefused { status, message } && status == reply.status && (match
            text_at(reply.body, "error"@) {
            Some(sentence) => message@ == sentence,
            None => exists|from: int, to: int| #[trigger]
                is_inner(lossy(reply.body), from, to) && message@ == lossy(reply.body).subrange(
                    from,
                    to,
                ),
        }),
{
    law_trimming_takes_white_space_away(lossy(reply.body));
}

/// A backup is asked for whole, or from the commit that is named after `from=`, in decimal.
pub proof fn law_backups_name_where_they_start(from: u64)
    ensures
        backup_path(None) == "/backup"@,
        "/backup?from="@.is_prefix_of(backup_path(Some(from))),
        number_of(
            backup_path(Some(from)).skip("/backup?from="@.len() as int),
            u64::MAX as nat,
        ) == Some(from as nat),
        backup_path(Some(from)).skip("/backup?from="@.len() as int) == decimal(from as nat),
{
    let opening = "/backup?from="@;
    let path = backup_path(Some(from));
    law_numbers_are_read_as_written(from as nat, u64::MAX as nat);
    assert(path.subrange(0, opening.len() as int) =~= opening);
    assert(path.skip(opening.len() as int) =~= decimal(from as nat));
}

/// A name in a route is asked for with the method that its route stands for, and only a call for a
/// size is answered without a body.
pub proof fn law_routes_have_their_methods(route: Route)
    ensures
        route.verb() == "POST"@ <==> route is OpenSession || route is ChangePassword,
        route.verb() == "DELETE"@ <==> route is CloseSession || route is DeleteFile,
        route.verb() == "PUT"@ <==> route is PutFile,
        route.verb() == "HEAD"@ <==> route is SizeFile,
        route.verb() == "GET"@ <==> route is Backup || route is Metrics || route is Health
            || route is Ready || route is GetFile,
{
    reveal_strlit("POST");
    reveal_strlit("DELETE");
    reveal_strlit("PUT");
    reveal_strlit("HEAD");
    reveal_strlit("GET");
    assert("POST"@[1] == 'O' && "PUT"@[1] == 'U' && "HEAD"@[0] == 'H' && "GET"@[0] == 'G'
        && "DELETE"@[0] == 'D' && "POST"@[0] == 'P' && "PUT"@[0] == 'P');
}

}
