//! What this client asks of a node, and what follows from which of them it is: the method, whether
//! an answer carries a body, and how often to ask.

use vstd::prelude::*;

verus! {

/// One of the calls this client makes.
#[derive(Debug, Clone, Copy, PartialEq, Eq)]
pub enum Route {
    /// Spending a password for a token.
    OpenSession,
    /// Giving a token back.
    CloseSession,
    /// Changing a password.
    ChangePassword,
    /// Taking a backup.
    Backup,
    /// What the node reports about itself.
    Metrics,
    /// Whether the store is well.
    Health,
    /// Whether the node takes new work.
    Ready,
    /// Writing a file.
    PutFile,
    /// Reading a file.
    GetFile,
    /// How many bytes a file holds.
    SizeFile,
    /// Removing a file.
    DeleteFile,
}

impl Route {
    /// The method that a request for it names.
    pub open spec fn verb(self) -> Seq<char> {
        match self {
            Route::OpenSession | Route::ChangePassword => "POST"@,
            Route::CloseSession | Route::DeleteFile => "DELETE"@,
            Route::PutFile => "PUT"@,
            Route::SizeFile => "HEAD"@,
            Route::Backup | Route::Metrics | Route::Health | Route::Ready | Route::GetFile =>
                "GET"@,
        }
    }

    /// Whether it is asked for once, however many attempts a handle allows.
    ///
    /// An answer lost on the way back leaves a token nobody holds, a credential already
    /// invalidated, or a copy already half delivered; and a token is dropped whatever becomes of
    /// giving it back.
    pub open spec fn is_asked_once(self) -> bool {
        self is OpenSession || self is CloseSession || self is ChangePassword || self is Backup
    }

    /// The method that a request for it names.
    #[must_use]
    pub fn method(self) -> (method: &'static str)
        ensures
            method@ == self.verb(),
    {
        match self {
            Route::OpenSession => "POST",
            Route::ChangePassword => "POST",
            Route::CloseSession => "DELETE",
            Route::DeleteFile => "DELETE",
            Route::PutFile => "PUT",
            Route::SizeFile => "HEAD",
            _ => "GET",
        }
    }

    /// Whether the answer carries a body. That is the method's property and not the answer's: a
    /// HEAD answers with the length a GET would carry and sends nothing after the headers.
    #[must_use]
    pub fn expects_body(self) -> (expects: bool)
        ensures
            expects == (self.verb() != "HEAD"@),
    {
        proof {
            reveal_strlit("POST");
            reveal_strlit("DELETE");
            reveal_strlit("PUT");
            reveal_strlit("HEAD");
            reveal_strlit("GET");
            assert("POST"@[0] != "HEAD"@[0]);
        }
        match self {
            Route::SizeFile => false,
            _ => true,
        }
    }

    /// How often to ask in total, where a handle allows `attempts`.
    #[must_use]
    pub fn tries(self, attempts: u8) -> (tries: u8)
        ensures
            tries == tries_of(self, attempts),
    {
        match self {
            Route::OpenSession => 1,
            Route::CloseSession => 1,
            Route::ChangePassword => 1,
            Route::Backup => 1,
            _ => attempts,
        }
    }
}

/// How often a call is asked for in total, where a handle allows `attempts`.
pub open spec fn tries_of(route: Route, attempts: u8) -> u8 {
    if route.is_asked_once() {
        1
    } else {
        attempts
    }
}

}
