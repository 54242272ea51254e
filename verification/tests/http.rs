//! The node's other surface: what is sent, what a reply comes to, and what is never printed.

use tessaridb_client::http::basic::{encode, header};
use tessaridb_client::http::line::{parse_number, trim};
use tessaridb_client::http::object;
use tessaridb_client::http::reply::{self, Awaiting, Copying, Following, Head, Heading, Reply};
use tessaridb_client::http::{
    retryable, sentence, sentence_or_body, Presenting, Route, Trying, Verdict,
};
use tessaridb_client::{Bucket, Condition, EncodingFault, Error, Operations};

/// The header a handle presents, as it appears on the wire.
const OLD: &str = "Basic YWRtaW46b2xk";
/// The same, after the password below has been changed to `new`.
const NEW: &str = "Basic YWRtaW46bmV3";
/// The answer that opening a session gives, as the node writes it.
const MINTED: &str = r#"{"token":"3f1c","expires_in":43200}"#;

fn text(bytes: Vec<u8>) -> String {
    String::from_utf8(bytes).expect("a request in ASCII")
}

fn answer(status: u16, body: &str) -> Reply {
    Reply {
        status,
        body: body.as_bytes().to_vec(),
        length: Some(body.len() as u64),
    }
}

fn handle() -> Operations {
    Operations::at("127.0.0.1:1").as_user("admin", "old")
}

/// The vectors of RFC 4648 §10, verbatim and complete.
#[test]
fn the_published_vectors_hold() {
    assert_eq!(encode(b""), "");
    assert_eq!(encode(b"f"), "Zg==");
    assert_eq!(encode(b"fo"), "Zm8=");
    assert_eq!(encode(b"foo"), "Zm9v");
    assert_eq!(encode(b"foob"), "Zm9vYg==");
    assert_eq!(encode(b"fooba"), "Zm9vYmE=");
    assert_eq!(encode(b"foobar"), "Zm9vYmFy");
}

/// The vectors above are all lowercase ASCII, which never reaches the top of
/// the alphabet or the `+` and `/` at its end. A byte string that walks the
/// whole range does.
#[test]
fn the_far_end_of_the_alphabet_is_reached() {
    assert_eq!(encode(&[0x00, 0x00, 0x00]), "AAAA");
    assert_eq!(encode(&[0xFF, 0xFF, 0xFF]), "////");
    assert_eq!(encode(&[0xFB, 0xFF]), "+/8=");
    assert_eq!(encode(&[0x00, 0x10, 0x83]), "ABCD");
}

#[test]
fn groups_of_three_are_spelled_alone_and_padding_ends_the_last() {
    let bytes: Vec<u8> = (0..20).map(|at| at * 13).collect();
    for len in 0..bytes.len() {
        let text = encode(&bytes[..len]);
        assert_eq!(text.len(), len.div_ceil(3) * 4);
        assert_eq!(text.matches('=').count(), (3 - len % 3) % 3);
        assert!(text.trim_end_matches('=').len() + (3 - len % 3) % 3 == text.len());
        for start in (0..=len).step_by(3) {
            assert_eq!(text, encode(&bytes[..start]) + &encode(&bytes[start..len]));
        }
    }
}

#[test]
fn the_header_is_the_value_the_node_was_seen_to_accept() {
    assert_eq!(header("admin", "s3cr3t pw"), "Basic YWRtaW46czNjcjN0IHB3");
}

/// A password outside ASCII is its UTF-8, and a password containing a colon
/// is left alone — only the first colon separates, so the second is data.
#[test]
fn a_password_is_bytes_and_not_a_grammar() {
    assert_eq!(header("u", "pä"), "Basic dTpww6Q=");
    assert_eq!(header("u", "a:b"), "Basic dTphOmI=");
}

/// The password, and the base64 that is only a spelling of it.
///
/// Both are asserted absent: checking for the plaintext alone would pass on
/// a text that printed the header, which is the exact thing being
/// prevented — the header is a working credential, decodable by anything.
#[test]
fn debugging_a_handle_does_not_print_the_credential() {
    let handle = Operations::at("127.0.0.1:1").as_user("admin", "s3cr3t pw");
    let shown = handle.shown();

    assert!(
        !shown.contains("s3cr3t"),
        "the plaintext password must not be formatted; got {shown}"
    );
    assert!(
        !shown.contains("YWRtaW46czNjcjN0IHB3"),
        "nor the header, which decodes back to it; got {shown}"
    );
    assert!(
        shown.contains("<present>"),
        "that a credential is set is worth saying — it is the first thing \
         looked for when a 401 arrives; got {shown}"
    );
    assert!(
        shown.contains("127.0.0.1:1"),
        "the address is not a secret and is the other half of the question; \
         got {shown}"
    );
}

#[test]
fn debugging_a_bucket_does_not_print_the_credential_either() {
    let bucket = Operations::at("127.0.0.1:1")
        .as_user("admin", "s3cr3t pw")
        .bucket("app", "main", "files");
    let shown = bucket.shown();

    assert!(
        !shown.contains("s3cr3t") && !shown.contains("YWRtaW46czNjcjN0IHB3"),
        "a bucket carries the handle, and formatting it must not carry the \
         credential out with it; got {shown}"
    );
    assert_eq!(
        shown,
        "Bucket { node: Operations { address: \"127.0.0.1:1\", credential: \"<present>\", \
         session: \"<none>\", attempts: 1 }, namespace: \"app\", database: \"main\", \
         name: \"files\" }"
    );
}

/// Absence is reported as absence rather than as nothing at all.
#[test]
fn a_handle_with_no_credential_says_which_it_is() {
    let shown = Operations::at("127.0.0.1:1").shown();
    assert!(
        shown.contains("<none>"),
        "sending no credential is the most likely cause of a 401, so the \
         output has to distinguish it from a credential it declined to \
         print; got {shown}"
    );
    assert_eq!(
        shown,
        "Operations { address: \"127.0.0.1:1\", credential: \"<none>\", session: \"<none>\", \
         attempts: 1 }"
    );
}

#[test]
fn a_request_declares_itself_completely() {
    let node = Operations::at("h:1");
    assert_eq!(
        text(node.metrics()),
        "GET /metrics HTTP/1.1\r\nHost: h:1\r\nConnection: close\r\n\r\n"
    );
    assert_eq!(
        text(handle().request("PUT", "/x", Some(b"ab"), Presenting::Whatever)),
        format!(
            "PUT /x HTTP/1.1\r\nHost: 127.0.0.1:1\r\nConnection: close\r\n\
             Authorization: {OLD}\r\nContent-Length: 2\r\n\r\nab"
        )
    );
    // An empty body is declared, which an absent one is not.
    assert!(text(node.request("PUT", "/x", Some(b""), Presenting::Whatever))
        .ends_with("\r\nContent-Length: 0\r\n\r\n"));
    assert!(text(node.health()).starts_with("GET /health HTTP/1.1\r\n"));
    assert!(text(node.ready()).starts_with("GET /ready HTTP/1.1\r\n"));
    assert_eq!(node.address(), "h:1");
}

#[test]
fn changing_a_password_without_one_opens_no_connection() {
    let mut node = Operations::at("127.0.0.1:1");
    let refused = node
        .change_password("new")
        .expect_err("a handle with no credential cannot change a password");
    assert!(
        matches!(refused, Error::NoCredential),
        "reported as itself, not as a 401 this client invented; got {refused:?}"
    );
    assert!(matches!(
        node.password_changed("new", &answer(200, "ok")),
        Err(Error::NoCredential)
    ));
}

#[test]
fn the_new_password_is_the_body_and_the_old_credential_signs_for_it() {
    let request = text(handle().change_password("new").expect("there is a credential"));
    assert!(
        request.starts_with("POST /password HTTP/1.1\r\n"),
        "the route and method are the node's, not invented; got {request}"
    );
    assert!(
        request.contains(&format!("Authorization: {OLD}\r\n")),
        "the *current* password authorises the change; got {request}"
    );
    assert!(
        request.ends_with("\r\n\r\nnew"),
        "the body is the new password with nothing wrapped around it; got {request}"
    );
}

#[test]
fn a_successful_change_leaves_the_handle_holding_the_new_password() {
    let mut node = handle();
    node.password_changed("new", &answer(200, "ok")).expect("200");
    let after = text(node.metrics());
    assert!(
        after.contains(&format!("Authorization: {NEW}\r\n")),
        "the handle must sign the next call with the password it just set; got {after}"
    );
}

#[test]
fn a_refused_change_leaves_the_handle_exactly_as_it_was() {
    let mut node = handle();
    node.session_opened(&answer(200, MINTED)).expect("a token to hold");
    let before = (text(node.metrics()), node.shown());
    let refused = node
        .password_changed("new", &answer(401, "ok"))
        .expect_err("a refusal");
    assert!(
        matches!(refused, Error::HttpRefused { status: 401, .. }),
        "the node's own answer reaches the caller; got {refused:?}"
    );
    assert_eq!((text(node.metrics()), node.shown()), before);
    assert!(text(node.open_session().expect("a credential")).contains(OLD));
}

fn broken() -> Error {
    Error::from(std::io::Error::new(std::io::ErrorKind::Other, "gone"))
}

/// How many exchanges a node is asked for where each of them ends so, and what it came to.
fn tried(node: &Operations, outcome: fn(usize) -> Result<Reply, Error>) -> (usize, Result<Reply, Error>) {
    asked(Route::Metrics, node, outcome)
}

/// The same, of one call or another.
fn asked(
    route: Route,
    node: &Operations,
    outcome: fn(usize) -> Result<Reply, Error>,
) -> (usize, Result<Reply, Error>) {
    let mut trying = Trying::new(route, node);
    let mut made = 0;
    loop {
        let ended = outcome(made);
        made += 1;
        match trying.judge(ended) {
            Verdict::Again => {}
            Verdict::Settled(outcome) => return (made, outcome),
        }
    }
}

#[test]
fn a_transport_failure_that_heals_is_survived() {
    let node = Operations::at("h:1").attempts(3);
    let (made, outcome) = tried(&node, |made| match made {
        0 => Err(broken()),
        _ => Ok(answer(200, "ok")),
    });
    assert_eq!(outcome.ok(), Some(answer(200, "ok")));
    assert_eq!(made, 2, "one failed attempt and one that worked — no more and no fewer");
}

#[test]
fn the_default_does_not_retry() {
    let (made, outcome) = tried(&Operations::at("h:1"), |_| Err(Error::Truncated));
    assert!(matches!(outcome, Err(Error::Truncated)));
    assert_eq!(made, 1, "the default is one attempt, so exactly one connection is made");
}

#[test]
fn a_refusal_is_answered_once_however_many_attempts_are_allowed() {
    let node = Operations::at("h:1").attempts(5);
    let (made, outcome) = tried(&node, |_| {
        Err(Error::HttpRefused { status: 401, message: String::new() })
    });
    assert!(matches!(outcome, Err(Error::HttpRefused { status: 401, .. })));
    assert_eq!(made, 1, "a refusal is the node answering, so asking again is a loop");
    for failure in [
        Error::Malformed,
        Error::TooLarge { length: 1 },
        Error::NotThisProtocol,
        Error::NoCredential,
        Error::Encoding { reason: EncodingFault::Truncated },
    ] {
        assert!(!retryable(&failure), "{failure:?}");
    }
}

#[test]
fn a_password_change_is_never_retried_however_many_attempts_are_set() {
    let node = handle().attempts(5);
    for route in [Route::ChangePassword, Route::OpenSession, Route::CloseSession] {
        let (made, failed) = asked(route, &node, |_| Err(Error::Truncated));
        assert!(matches!(failed, Err(Error::Truncated)), "reported as itself");
        assert_eq!(made, 1, "exactly one attempt, even with five allowed: {route:?}");
        let (made, failed) = asked(route, &node, |_| Err(broken()));
        assert!(matches!(failed, Err(Error::Io(_))), "reported as itself");
        assert_eq!(made, 1, "exactly one attempt, even with five allowed: {route:?}");
    }
}

#[test]
fn a_backup_is_never_retried_however_many_attempts_are_set() {
    let node = Operations::at("h:1").attempts(3);
    let (made, failed) = asked(Route::Backup, &node, |_| Err(Error::Truncated));
    assert!(matches!(failed, Err(Error::Truncated)));
    assert_eq!(made, 1, "asked exactly once: the first answer is already in the sink");
}

#[test]
fn a_call_decides_its_method_its_body_and_its_attempts() {
    let calls = [
        (Route::OpenSession, "POST", 1),
        (Route::CloseSession, "DELETE", 1),
        (Route::ChangePassword, "POST", 1),
        (Route::Backup, "GET", 1),
        (Route::Metrics, "GET", 7),
        (Route::Health, "GET", 7),
        (Route::Ready, "GET", 7),
        (Route::PutFile, "PUT", 7),
        (Route::GetFile, "GET", 7),
        (Route::SizeFile, "HEAD", 7),
        (Route::DeleteFile, "DELETE", 7),
    ];
    for (route, method, tries) in calls {
        assert_eq!(route.method(), method, "{route:?}");
        assert_eq!(route.expects_body(), method != "HEAD", "{route:?}");
        assert_eq!(route.tries(7), tries, "{route:?}");
    }
}

#[test]
fn attempts_are_bounded() {
    let (made, outcome) = tried(&Operations::at("h:1").attempts(2), |_| Err(Error::Truncated));
    assert!(matches!(outcome, Err(Error::Truncated)));
    assert_eq!(made, 2, "two attempts were allowed, so two connections were made");
    let (made, outcome) = tried(&Operations::at("h:1").attempts(255), |_| Err(broken()));
    assert!(matches!(outcome, Err(Error::Io(_))));
    assert_eq!(made, 255);
}

#[test]
fn asking_for_no_attempts_still_asks_once() {
    let node = Operations::at("h:1").attempts(0);
    assert!(node.shown().ends_with("attempts: 1 }"));
    let (made, _) = tried(&node, |_| Err(Error::Truncated));
    assert_eq!(made, 1);
}

#[test]
fn opening_a_session_spends_the_password_and_then_stops_sending_it() {
    let mut node = handle();
    let first = text(node.open_session().expect("there is a password to spend"));
    assert!(first.starts_with("POST /session "), "got {first}");
    assert!(
        first.contains(&format!("Authorization: {OLD}\r\n")),
        "the route refuses a token, so this one carries the password"
    );

    let lifetime = node.session_opened(&answer(200, MINTED)).expect("the shape the node answers");
    assert_eq!(lifetime, 43_200, "read from the answer, not assumed");
    assert!(node.shown().contains("session: \"<open>\""));
    assert!(!node.shown().contains("3f1c"), "a token is a secret too");

    let later = text(node.health());
    assert!(
        later.contains("Authorization: Bearer 3f1c\r\n"),
        "every later request carries the token; got {later}"
    );
    assert!(
        !later.contains("Basic"),
        "and stops carrying the password — that saving is the point"
    );
}

#[test]
fn a_session_is_never_offered_to_the_two_routes_that_refuse_one() {
    let mut node = handle();
    node.session_opened(&answer(200, MINTED)).expect("a token to hold");
    for request in [
        text(node.open_session().expect("a credential")),
        text(node.change_password("new").expect("a credential")),
    ] {
        let line = request.lines().next().unwrap_or_default();
        assert!(
            request.contains("Authorization: Basic "),
            "both refusing routes take the password; {line} did not"
        );
        assert!(
            !request.contains("Bearer"),
            "and must not be handed a token; {line} was"
        );
    }
}

#[test]
fn a_password_change_drops_the_session_the_node_has_already_ended() {
    let mut node = handle();
    node.session_opened(&answer(200, MINTED)).expect("a token to hold");
    node.password_changed("new", &answer(200, "ok")).expect("200");
    let last = text(node.health());
    assert!(
        last.contains(&format!("Authorization: {NEW}\r\n")),
        "back to the new password, with no token in sight; got {last}"
    );
}

#[test]
fn closing_a_session_hands_the_token_back_before_forgetting_it() {
    let mut node = handle();
    node.session_opened(&answer(200, MINTED)).expect("a token to hold");
    let request = text(node.close_session().expect("a token to give back"));
    assert!(request.starts_with("DELETE /session "), "given back on the route that takes it");
    assert!(
        request.contains("Authorization: Bearer 3f1c\r\n"),
        "carrying the token, which is what the node forgets by; got {request}"
    );
    node.session_closed(Ok(answer(200, ""))).expect("200");
    assert!(
        text(node.health()).contains(&format!("Authorization: {OLD}\r\n")),
        "and afterwards the handle is back on the password"
    );
}

#[test]
fn a_session_is_dropped_whatever_the_node_answers() {
    for outcome in [Ok(answer(503, "busy")), Err(Error::Truncated)] {
        let mut node = handle();
        node.session_opened(&answer(200, MINTED)).expect("a token to hold");
        let failed = node.session_closed(outcome).expect_err("not a 200");
        assert!(
            matches!(failed, Error::HttpRefused { status: 503, .. } | Error::Truncated),
            "got {failed:?}"
        );
        assert!(node.close_session().is_none());
    }
}

#[test]
fn closing_a_session_nobody_opened_opens_no_connection() {
    assert!(handle().close_session().is_none(), "nothing to send");
}

#[test]
fn opening_a_session_without_a_password_opens_no_connection() {
    let refused = Operations::at("127.0.0.1:1")
        .open_session()
        .expect_err("there is no password to spend");
    assert!(
        matches!(refused, Error::NoCredential),
        "reported as itself; got {refused:?}"
    );
}

#[test]
fn an_answer_with_no_token_in_it_is_malformed_and_leaves_no_session() {
    for body in [r#"{"expires_in":43200}"#, r#"{"token":null}"#, r#"{"token":7}"#, "[]", "nonsense"] {
        let mut node = handle();
        let refused = node
            .session_opened(&answer(200, body))
            .expect_err("no token field, no session");
        assert!(
            matches!(refused, Error::Malformed),
            "the body is not the shape the route promises; got {refused:?}"
        );
        assert!(
            text(node.health()).contains(&format!("Authorization: {OLD}\r\n")),
            "still on the password, holding nothing"
        );
    }
    let mut node = handle();
    assert!(matches!(
        node.session_opened(&answer(401, r#"{"error":"wrong password"}"#)),
        Err(Error::HttpRefused { status: 401, message }) if message == "wrong password"
    ));
    // A lifetime the node did not report is not worth refusing a working token over.
    assert_eq!(node.session_opened(&answer(200, r#"{"token":"t"}"#)).ok(), Some(0));
    assert!(matches!(node.hold_session(None, Some(5)), Err(Error::Malformed)));
    assert_eq!(node.hold_session(Some("u".to_owned()), Some(5)).ok(), Some(5));
    assert!(text(node.health()).contains("Authorization: Bearer u\r\n"));
}

#[test]
fn signing_in_as_somebody_else_does_not_keep_the_first_ones_token() {
    let mut node = handle();
    node.session_opened(&answer(200, MINTED)).expect("a token to hold");
    let node = node.as_user("admin", "new");
    let last = text(node.health());
    assert!(
        last.contains(&format!("Authorization: {NEW}\r\n")),
        "the new identity's password, not the old identity's token; got {last}"
    );
}

#[test]
fn a_backup_is_asked_for_with_the_credential() {
    let request = text(handle().backup());
    assert!(
        request.starts_with("GET /backup HTTP/1.1\r\n"),
        "the whole-store backup takes no query; got {request:?}"
    );
    assert!(request.contains(&format!("Authorization: {OLD}\r\n")));
    assert_eq!(Operations::backed_up(&answer(200, "1234")).ok(), Some(4));
    let unsaid = Reply { status: 200, body: vec![], length: None };
    assert!(matches!(Operations::backed_up(&unsaid), Err(Error::Malformed)));
}

#[test]
fn an_incremental_backup_names_the_sequence_in_the_query() {
    let request = text(Operations::at("h:1").backup_from(7));
    assert!(
        request.starts_with("GET /backup?from=7 HTTP/1.1\r\n"),
        "the sequence is the one query this route takes; got {request:?}"
    );
}

#[test]
fn a_refused_backup_writes_nothing_at_all_into_the_sink() {
    let head = Head { status: 401, length: Some(46) };
    assert!(matches!(head.following_into(), Ok(Following::Held(46))));
    let refused = Operations::backed_up(&answer(401, "no")).expect_err("a 401 is a refusal");
    assert!(
        matches!(refused, Error::HttpRefused { status: 401, .. }),
        "the node's own status, carried as a field; got {refused:?}"
    );
}

#[test]
fn a_backup_larger_than_this_client_would_buffer_is_delivered() {
    const OVER: u64 = 17 * 1024 * 1024;
    let head = Head { status: 200, length: Some(OVER) };
    assert!(matches!(head.following_into(), Ok(Following::Streamed(OVER))));
    assert!(matches!(
        head.following(true),
        Err(Error::TooLarge { length: 17_825_792 })
    ));
    let head = Head { status: 200, length: None };
    assert!(matches!(head.following_into(), Err(Error::Malformed)));
}

#[test]
fn a_copy_that_ends_early_is_truncated() {
    let mut copying = Copying { left: 5 };
    assert_eq!(copying.wanted(3), 3);
    copying.took(3).expect("three of five");
    assert_eq!(copying.wanted(3), 2);
    assert!(matches!(copying.took(0), Err(Error::Truncated)));
    copying.took(2).expect("all of it");
    assert_eq!((copying.left, copying.wanted(3)), (0, 0));
    copying.took(0).expect("nothing more was to come");
}

fn read(response: &str) -> Result<Reply, Error> {
    reply::read(response.as_bytes(), true)
}

#[test]
fn a_response_is_read_by_the_length_it_declares() {
    let reply = read("HTTP/1.1 200 OK\r\nContent-Length: 2\r\nConnection: close\r\n\r\nok and more")
        .expect("a response");
    assert_eq!(reply, Reply { status: 200, body: b"ok".to_vec(), length: Some(2) });
    // Field names are case-insensitive, and white space around a value is none of it.
    let reply = read("HTTP/1.0 503 .\ncontent-LENGTH :\t1 \n\nx").expect("a response");
    assert_eq!(reply, Reply { status: 503, body: b"x".to_vec(), length: Some(1) });
    // The last declaration stands, and a reason is not needed.
    let reply = read("HTTP/1.1 200\r\nContent-Length: 9\r\nContent-Length: +1\r\n\r\nx")
        .expect("a response");
    assert_eq!(reply.body, b"x");
}

#[test]
fn a_response_is_read_as_it_was_sent() {
    let sent = "HTTP/1.1 418 I'm a teapot\r\nDate: today\r\nContent-Length: 10\r\nX-Id: 7\r\n\r\n\
                ten bytes!";
    let reply = read(sent).expect("a response");
    assert_eq!(reply, Reply { status: 418, body: b"ten bytes!".to_vec(), length: Some(10) });
    // A body that stops short is truncation, wherever it stops.
    let head = sent.len() - 10;
    for end in head..sent.len() {
        assert!(matches!(read(&sent[..end]), Err(Error::Truncated)), "{end}");
    }
}

#[test]
fn a_bodyless_response_keeps_the_length_it_declares() {
    let head = b"HTTP/1.1 200 OK\r\nContent-Length: 12\r\n\r\n";
    let reply = reply::read(head, false).expect("a HEAD sends no body");
    assert_eq!(reply, Reply { status: 200, body: vec![], length: Some(12) });
    for status in [204, 304] {
        let reply = read(&format!("HTTP/1.1 {status} .\r\n\r\n")).expect("no body is due");
        assert_eq!(reply, Reply { status, body: vec![], length: None });
    }
}

#[test]
fn a_response_that_is_not_one_is_refused() {
    for response in [
        "SSH-2.0\r\n\r\n",
        "HTTP/2 200\r\n\r\n",
        "http/1.1 200\r\n\r\n",
        "\r\n",
        " HTTP/1.1 200\r\n\r\n",
    ] {
        assert!(matches!(read(response), Err(Error::NotThisProtocol)), "{response:?}");
    }
    for response in [
        "HTTP/1.1\r\n\r\n",
        "HTTP/1.1 \r\n\r\n",
        "HTTP/1.1 two\r\n\r\n",
        "HTTP/1.1  200\r\n\r\n",
        "HTTP/1.1 65536\r\n\r\n",
        "HTTP/1.1 200 OK\r\nno colon\r\n\r\n",
        "HTTP/1.1 200 OK\r\nContent-Length: -1\r\n\r\n",
        "HTTP/1.1 200 OK\r\nContent-Length: 18446744073709551616\r\n\r\n",
        "HTTP/1.1 200 OK\r\nTransfer-Encoding: chunked\r\n\r\n",
        "HTTP/1.1 200 OK\r\n TRANSFER-encoding : identity\r\n\r\n",
        // No length at all is not guessed at either.
        "HTTP/1.1 200 OK\r\n\r\nbody",
    ] {
        assert!(matches!(read(response), Err(Error::Malformed)), "{response:?}");
    }
    for response in [
        "",
        "HTTP/1.1 200 OK\r\n",
        "HTTP/1.1 200 OK\r\nContent-Length: 2\r\n",
        "HTTP/1.1 200 OK\r\nContent-Length: 2\r\n\r\nx",
    ] {
        assert!(matches!(read(response), Err(Error::Truncated)), "{response:?}");
    }
    assert!(matches!(
        reply::read(b"HTTP/1.1 200 OK\r\nX: \xFF\r\n\r\n", true),
        Err(Error::Truncated)
    ));
}

#[test]
fn headers_and_bodies_have_ceilings() {
    let long = "x".repeat(65_534);
    let at = format!("HTTP/1.1 204 .\r\na:{long}\r\n\r\n");
    assert_eq!(read(&at).expect("exactly the ceiling").status, 204);
    let over = format!("HTTP/1.1 204 .\r\na:{long}\r\nb:\r\n\r\n");
    assert!(matches!(read(&over), Err(Error::TooLarge { length: 65_536 })));
    let body = "HTTP/1.1 200 OK\r\nContent-Length: 16777217\r\n\r\n";
    let Err(refused) = read(body) else {
        panic!("one byte more than is read");
    };
    assert!(matches!(refused, Error::TooLarge { length: 16_777_217 }));
    assert_eq!(
        refused.to_string(),
        "a frame declared 16777217 bytes, which is more than this client will read"
    );
    // A length that the refusal cannot hold is told as the most that it can.
    let body = "HTTP/1.1 200 OK\r\nContent-Length: 4294967296\r\n\r\n";
    assert!(matches!(read(body), Err(Error::TooLarge { length: u32::MAX })));
    let head = Head { status: 500, length: Some(u64::from(u32::MAX)) };
    assert!(matches!(head.following_into(), Err(Error::TooLarge { length: u32::MAX })));
}

#[test]
fn a_head_is_read_a_line_at_a_time() {
    let Ok(Heading::More(awaiting)) = Awaiting::Status.line(Some("HTTP/1.1 200 OK\r\n")) else {
        panic!("a status line");
    };
    let Ok(Heading::More(awaiting)) = awaiting.line(Some("Content-Length: 7\r\n")) else {
        panic!("a header");
    };
    assert_eq!(
        awaiting,
        Awaiting::Headers { status: 200, spent: 17, length: Some(7) }
    );
    assert!(matches!(awaiting.line(None), Err(Error::Truncated)));
    let Ok(Heading::Complete(head)) = awaiting.line(Some("\r\n")) else {
        panic!("the blank line");
    };
    assert_eq!(head, Head { status: 200, length: Some(7) });
    assert!(matches!(head.following(true), Ok(Following::Held(7))));
    assert!(matches!(head.following(false), Ok(Following::Nothing)));
    assert!(matches!(head.reply(None), Err(Error::Truncated)));
}

#[test]
fn a_condition_comes_in_three_shapes() {
    let read = |status, body: &str| Operations::condition_read(&answer(status, body));
    assert_eq!(
        read(200, r#"{"status":"ok","committed":12}"#).ok(),
        Some(Condition::Well { committed: 12 })
    );
    assert_eq!(
        read(
            503,
            r#"{"status":"unwell","committed":1,"background_errors":2,"complaint":"disk"}"#
        )
        .ok(),
        Some(Condition::Unwell {
            committed: 1,
            background_errors: 2,
            complaint: "disk".to_owned()
        })
    );
    assert_eq!(read(503, r#"{"status":"leaving"}"#).ok(), Some(Condition::Leaving));
    for body in [
        r#"{"status":"resting"}"#,
        r#"{"status":"ok"}"#,
        r#"{"status":"ok","committed":-1}"#,
        r#"{"status":"ok","committed":"12"}"#,
        r#"{"status":"unwell","committed":1,"background_errors":2}"#,
        r#"{"committed":12}"#,
        "",
    ] {
        assert!(matches!(read(200, body), Err(Error::Malformed)), "{body}");
    }
    assert!(matches!(
        read(500, r#"{"error":"oops"}"#),
        Err(Error::HttpRefused { status: 500, message }) if message == "oops"
    ));
    assert!(matches!(
        Condition::from_fields(Some("unwell".to_owned()), Some(1), None, Some(String::new())),
        Err(Error::Malformed)
    ));
}

#[test]
fn a_refusal_is_unwrapped_from_the_json_that_carried_it() {
    assert_eq!(sentence(br#"{"error":"no such bucket"}"#), "no such bucket");
    assert_eq!(sentence(br#"{"error":"a \"quoted\" \u00e9"}"#), "a \"quoted\" é");
    // Whatever is not that shape is shown as it is, without the space around it.
    assert_eq!(sentence(b"  502 Bad Gateway\r\n"), "502 Bad Gateway");
    assert_eq!(sentence(br#"{"error":7}"#), r#"{"error":7}"#);
    assert_eq!(sentence(b"\xC2\xA0caf\xE9 "), "caf\u{FFFD}");
    assert_eq!(sentence_or_body(Some(" as it is ".to_owned()), b"x"), " as it is ");
}

#[test]
fn metrics_are_returned_as_the_node_wrote_them() {
    assert_eq!(Operations::metrics_read(answer(200, "up 1\n")).ok().as_deref(), Some("up 1\n"));
    assert_eq!(Operations::metrics_read(answer(299, "")).ok().as_deref(), Some(""));
    assert!(matches!(
        Operations::metrics_read(answer(300, "moved")),
        Err(Error::HttpRefused { status: 300, message }) if message == "moved"
    ));
    let unreadable = Reply { status: 200, body: vec![0xFF], length: Some(1) };
    assert!(matches!(Operations::metrics_read(unreadable), Err(Error::Malformed)));
}

#[test]
fn a_file_is_reached_by_the_name_its_caller_used() {
    let bucket = Operations::at("h:1").bucket("app", "main", "files");
    assert!(text(bucket.get("a b/100%.txt"))
        .starts_with("GET /files/app/main/files/a%20b/100%25.txt HTTP/1.1\r\n"));
    assert!(text(bucket.get("/x")).starts_with("GET /files/app/main/files//x HTTP/1.1\r\n"));
    assert!(text(bucket.size("x")).starts_with("HEAD /files/app/main/files/x HTTP/1.1\r\n"));
    assert!(text(bucket.delete("x")).starts_with("DELETE /files/app/main/files/x HTTP/1.1\r\n"));
    let put = text(bucket.put("x", b"ab"));
    assert!(put.starts_with("PUT /files/app/main/files/x HTTP/1.1\r\n"));
    assert!(put.ends_with("Content-Length: 2\r\n\r\nab"));
    assert_eq!(bucket.node().address(), "h:1");
    assert_eq!(
        object::encode("AZaz09-._~/ é\r\n?#"),
        "AZaz09-._~/%20%C3%A9%0D%0A%3F%23"
    );
}

#[test]
fn a_file_that_is_absent_is_not_a_file_that_is_empty() {
    assert_eq!(Bucket::fetched(answer(404, "no")).expect("an answer"), None);
    assert_eq!(Bucket::fetched(answer(200, "")).expect("an answer"), Some(vec![]));
    assert_eq!(Bucket::sized(&answer(404, "no")).expect("an answer"), None);
    assert_eq!(Bucket::sized(&answer(200, "")).expect("an answer"), Some(0));
    let unsaid = Reply { status: 200, body: vec![], length: None };
    assert!(matches!(Bucket::sized(&unsaid), Err(Error::Malformed)));
    for status in [201, 400, 403] {
        assert!(Bucket::fetched(answer(status, "")).is_err());
        assert!(Bucket::sized(&answer(status, "")).is_err());
    }
    assert!(Bucket::stored(&answer(201, "")).is_ok());
    assert!(Bucket::deleted(&Reply { status: 204, body: vec![], length: None }).is_ok());
    assert!(matches!(
        Bucket::stored(&answer(400, r#"{"error":"not a bucket"}"#)),
        Err(Error::HttpRefused { status: 400, message }) if message == "not a bucket"
    ));
    assert!(matches!(
        Bucket::deleted(&answer(200, "")),
        Err(Error::HttpRefused { status: 200, .. })
    ));
}

#[test]
fn numbers_and_white_space_are_those_of_the_language() {
    for written in ["0", "00012", "+7", "65535", "65536", "", "+", "-0", " 1", "1 ", "1_0", "٣"] {
        assert_eq!(
            parse_number(written, u64::from(u16::MAX)),
            written.parse::<u16>().ok().map(u64::from),
            "{written:?}"
        );
    }
    for held in ["", " a b\t", "\u{a0}\u{2003}x\u{3000}\u{85}", "\u{200b}x", "\u{1680}\u{feff}", "\n\n"] {
        assert_eq!(trim(held), held.trim(), "{held:?}");
    }
    for code in 0..=0x3100_u32 {
        if let Some(ch) = char::from_u32(code) {
            assert_eq!(trim(&ch.to_string()).is_empty(), ch.is_whitespace(), "{code:x}");
        }
    }
}
