//! What a handle keeps, what each of its calls asks for, and what it takes of each answer.

use vstd::prelude::*;
use vstd::utf8::{decode_utf8, encode_utf8, valid_utf8};

use crate::error::Error;
use crate::http::{
    backup_path, law_routes_have_their_methods, refuses, request_bytes, retryable, shown_operations,
    Operations, OperationsView, Presenting, Trying, Verdict,
};
use crate::http::basic::{base64, basic_header};
use crate::http::condition::{condition_in, condition_of, Condition};
use crate::http::json::{count_at, said, text_at};
use crate::http::line::{
    is_inner, law_trimming_takes_white_space_away, number_of, parse_number, strip_line_end, trim,
    without_line_end,
};
use crate::http::object::{
    law_paths_reach_the_node, percent, percent_decoded, route_of, shown_bucket, Bucket, BucketView,
};
use crate::http::reply::{
    after_line, held_body, reply_in, streamed_body, Awaiting, Copying, Following, Head, Heading,
    Reply, ReplyView,
};
use crate::http::route::Route;
use crate::text::{decimal, lemma_assoc, quoted, IntoText};

verus! {

/// A handle starts at its address, without a credential or a session, and makes one attempt. It
/// makes as many as it is told to, and at least one. A credential that it is given replaces the one
/// before and ends the session.
pub proof fn law_handles_keep_what_they_are_given<A: IntoText>(
    address: A,
    fresh: Operations,
    node: Operations,
    attempts: u8,
    tried: Operations,
    name: &str,
    password: &str,
    signed: Operations,
)
    requires
        call_ensures(Operations::at, (address,), fresh),
        call_ensures(Operations::attempts, (node, attempts), tried),
        call_ensures(Operations::as_user, (node, name, password), signed),
    ensures
        fresh@.address == address.text(),
        fresh@.credential is None,
        fresh@.session is None,
        fresh@.attempts == 1,
        tried@.attempts == (if attempts > 1 {
            attempts
        } else {
            1
        }),
        tried@.address == node@.address,
        tried@.credential == node@.credential,
        tried@.session == node@.session,
        signed@.credential == Some((name@, basic_header(name@, password@))),
        signed@.session is None,
        signed@.address == node@.address,
        signed@.attempts == node@.attempts,
{
}

/// A token that is handed over opens a session under it, for as long as was said or, where nothing
/// was, for no time at all; without one nothing changes. The rest of the handle stays.
pub proof fn law_tokens_open_sessions(
    node: &mut Operations,
    token: Option<String>,
    expires_in: Option<u64>,
    held: Result<u64, Error>,
)
    requires
        call_ensures(Operations::hold_session, (node, token, expires_in), held),
    ensures
        token is Some <==> held is Ok,
        token matches Some(token) ==> final(node)@ == (OperationsView {
            session: Some("Bearer "@ + token@),
            ..old(node)@
        }),
        token is Some && expires_in is Some ==> held == Ok::<u64, Error>(expires_in->0),
        token is Some && expires_in is None ==> held == Ok::<u64, Error>(0),
        token is None ==> held == Err::<u64, Error>(Error::Malformed) && final(node)@ == old(
            node,
        )@,
{
}

/// A session is opened by the token in an answer of status 200 and by no other answer.
pub proof fn law_sessions_are_opened_by_answers(
    node: &mut Operations,
    reply: &Reply,
    opened: Result<u64, Error>,
)
    requires
        call_ensures(Operations::session_opened, (node, reply), opened),
    ensures
        opened is Ok <==> reply.status == 200 && text_at(reply@.body, "token"@) is Some,
        opened is Ok ==> final(node)@ == (OperationsView {
            session: Some("Bearer "@ + text_at(reply@.body, "token"@)->0),
            ..old(node)@
        }),
        opened matches Ok(seconds) ==> seconds == (if count_at(
            reply@.body,
            "expires_in"@,
        ) is Some {
            count_at(reply@.body, "expires_in"@)->0
        } else {
            0
        }),
        opened is Err ==> final(node)@ == old(node)@,
        opened matches Err(error) ==> (if reply.status == 200 {
            error == Error::Malformed
        } else {
            refuses(error, reply@)
        }),
{
}

/// A session that is given back is forgotten, whatever became of giving it back, and nothing else
/// is; it was given back where the answer was 200.
pub proof fn law_sessions_are_forgotten(
    node: &mut Operations,
    outcome: Result<Reply, Error>,
    closed: Result<(), Error>,
)
    requires
        call_ensures(Operations::session_closed, (node, outcome), closed),
    ensures
        final(node)@ == (OperationsView { session: None, ..old(node)@ }),
        closed is Ok <==> (outcome matches Ok(reply) && reply.status == 200),
        outcome matches Err(failure) ==> closed == Err::<(), Error>(failure),
        outcome matches Ok(reply) ==> (closed matches Err(error) ==> refuses(error, reply@)),
{
}

/// A password that was changed is the one that is presented from then on, under the same name, and
/// the session is over; one that was not changed leaves everything as it was.
pub proof fn law_changed_passwords_are_kept(
    node: &mut Operations,
    new: &str,
    reply: &Reply,
    changed: Result<(), Error>,
)
    requires
        call_ensures(Operations::password_changed, (node, new, reply), changed),
    ensures
        changed is Ok <==> old(node)@.credential is Some && reply.status == 200,
        changed is Ok ==> final(node)@ == (OperationsView {
            credential: Some(
                (
                    (old(node)@.credential->0).0,
                    basic_header((old(node)@.credential->0).0, new@),
                ),
            ),
            session: None,
            ..old(node)@
        }),
        changed is Err ==> final(node)@ == old(node)@,
        changed matches Err(error) ==> (if old(node)@.credential is None {
            error == Error::NoCredential
        } else {
            refuses(error, reply@)
        }),
{
}

/// The calls that open a session and change a password need a credential, name `/session` and
/// `/password`, and present the password; giving a session back needs one and presents it.
pub proof fn law_credentials_are_asked_with(
    node: &Operations,
    new: &str,
    opening: Result<Vec<u8>, Error>,
    changing: Result<Vec<u8>, Error>,
    closing: Option<Vec<u8>>,
)
    requires
        call_ensures(Operations::open_session, (node,), opening),
        call_ensures(Operations::change_password, (node, new), changing),
        call_ensures(Operations::close_session, (node,), closing),
    ensures
        opening is Ok <==> node@.credential is Some,
        changing is Ok <==> node@.credential is Some,
        closing is Some <==> node@.session is Some,
        opening matches Err(error) ==> error == Error::NoCredential,
        changing matches Err(error) ==> error == Error::NoCredential,
        opening matches Ok(request) ==> request@ == request_bytes(
            node@,
            "POST"@,
            "/session"@,
            None,
            Presenting::PasswordOnly,
        ),
        changing matches Ok(request) ==> request@ == request_bytes(
            node@,
            "POST"@,
            "/password"@,
            Some(encode_utf8(new@)),
            Presenting::PasswordOnly,
        ),
        closing matches Some(request) ==> request@ == request_bytes(
            node@,
            "DELETE"@,
            "/session"@,
            None,
            Presenting::Whatever,
        ),
{
}

/// The calls that ask about the node itself name their own path and send no body.
pub proof fn law_calls_name_their_paths(node: &Operations, from: u64, request: Vec<u8>)
    ensures
        call_ensures(Operations::backup, (node,), request) ==> request@ == request_bytes(
            node@,
            "GET"@,
            "/backup"@,
            None,
            Presenting::Whatever,
        ),
        call_ensures(Operations::backup_from, (node, from), request) ==> request@ == request_bytes(
            node@,
            "GET"@,
            backup_path(Some(from)),
            None,
            Presenting::Whatever,
        ),
        call_ensures(Operations::metrics, (node,), request) ==> request@ == request_bytes(
            node@,
            "GET"@,
            "/metrics"@,
            None,
            Presenting::Whatever,
        ),
        call_ensures(Operations::health, (node,), request) ==> request@ == request_bytes(
            node@,
            "GET"@,
            "/health"@,
            None,
            Presenting::Whatever,
        ),
        call_ensures(Operations::ready, (node,), request) ==> request@ == request_bytes(
            node@,
            "GET"@,
            "/ready"@,
            None,
            Presenting::Whatever,
        ),
{
}

/// The calls on a file name the file in their path; writing one sends its bytes, and the others
/// send nothing.
pub proof fn law_files_are_asked_for_by_method(
    bucket: &Bucket,
    path: &str,
    bytes: &[u8],
    request: Vec<u8>,
)
    ensures
        call_ensures(Bucket::put, (bucket, path, bytes), request) ==> request@ == request_bytes(
            bucket@.node,
            "PUT"@,
            route_of(bucket@, path@),
            Some(bytes@),
            Presenting::Whatever,
        ),
        call_ensures(Bucket::get, (bucket, path), request) ==> request@ == request_bytes(
            bucket@.node,
            "GET"@,
            route_of(bucket@, path@),
            None,
            Presenting::Whatever,
        ),
        call_ensures(Bucket::size, (bucket, path), request) ==> request@ == request_bytes(
            bucket@.node,
            "HEAD"@,
            route_of(bucket@, path@),
            None,
            Presenting::Whatever,
        ),
        call_ensures(Bucket::delete, (bucket, path), request) ==> request@ == request_bytes(
            bucket@.node,
            "DELETE"@,
            route_of(bucket@, path@),
            None,
            Presenting::Whatever,
        ),
{
}

/// A bucket is at the handle it was asked of, under the names that were given, each in its place.
pub proof fn law_buckets_are_named_in_order<N: IntoText, D: IntoText, B: IntoText>(
    node: &Operations,
    namespace: N,
    database: D,
    name: B,
    bucket: Bucket,
)
    requires
        call_ensures(Operations::bucket, (node, namespace, database, name), bucket),
    ensures
        bucket@.node == node@,
        bucket@.namespace == namespace.text(),
        bucket@.database == database.text(),
        bucket@.name == name.text(),
{
}

/// A file was written where the answer is 201, removed where it is 204, is there where it is 200
/// and is not where it is 404; every other answer is a refusal.
pub proof fn law_answers_about_files_are_told_by_status(
    reply: Reply,
    stored: Result<(), Error>,
    fetched: Result<Option<Vec<u8>>, Error>,
    sized: Result<Option<u64>, Error>,
    deleted: Result<(), Error>,
)
    requires
        call_ensures(Bucket::stored, (&reply,), stored),
        call_ensures(Bucket::fetched, (reply,), fetched),
        call_ensures(Bucket::sized, (&reply,), sized),
        call_ensures(Bucket::deleted, (&reply,), deleted),
    ensures
        stored is Ok <==> reply.status == 201,
        deleted is Ok <==> reply.status == 204,
        fetched is Ok <==> reply.status == 200 || reply.status == 404,
        (fetched matches Ok(found) && found is Some) <==> reply.status == 200,
        fetched matches Ok(Some(bytes)) ==> bytes@ == reply.body@,
        sized is Ok <==> reply.status == 404 || (reply.status == 200 && reply.length is Some),
        sized matches Ok(size) ==> size == (if reply.status == 200 {
            reply.length
        } else {
            None
        }),
        reply.status == 200 && reply.length is None ==> (sized matches Err(error) && error
            == Error::Malformed),
        stored matches Err(error) ==> refuses(error, reply@),
        deleted matches Err(error) ==> refuses(error, reply@),
        fetched matches Err(error) ==> refuses(error, reply@),
        sized matches Err(error) ==> (reply.status != 200 ==> refuses(error, reply@)),
{
}

/// A backup is as long as its answer declares, metrics are the text of theirs, and a condition is
/// what the body reports at 200 and at 503; every other answer is a refusal.
pub proof fn law_answers_about_the_node_are_told_by_status(
    reply: Reply,
    written: Result<u64, Error>,
    metrics: Result<String, Error>,
    condition: Result<Condition, Error>,
)
    requires
        call_ensures(Operations::backed_up, (&reply,), written),
        call_ensures(Operations::metrics_read, (reply,), metrics),
        call_ensures(Operations::condition_read, (&reply,), condition),
    ensures
        written is Ok <==> reply.status == 200 && reply.length is Some,
        written matches Ok(length) ==> reply.length == Some(length),
        written matches Err(error) ==> (if reply.status == 200 {
            error == Error::Malformed
        } else {
            refuses(error, reply@)
        }),
        metrics is Ok <==> 200 <= reply.status <= 299 && valid_utf8(reply.body@),
        metrics matches Ok(text) ==> text@ == decode_utf8(reply.body@),
        metrics matches Err(error) ==> (if 200 <= reply.status <= 299 {
            error == Error::Malformed
        } else {
            refuses(error, reply@)
        }),
        condition is Ok <==> (reply.status == 200 || reply.status == 503) && condition_in(
            reply.body@,
        ) is Some,
        condition matches Ok(told) ==> condition_in(reply.body@) == Some(told@),
        condition matches Err(error) ==> (if reply.status == 200 || reply.status == 503 {
            error == Error::Malformed
        } else {
            refuses(error, reply@)
        }),
{
}

/// A call is first made once, and is made again after a failure that leaves room for doubt for as
/// long as fewer attempts were made than it is allowed; otherwise what came of it is what came of
/// the last attempt.
pub proof fn law_attempts_are_counted(
    route: Route,
    node: &Operations,
    first: Trying,
    trying: &mut Trying,
    outcome: Result<Reply, Error>,
    verdict: Verdict,
)
    requires
        call_ensures(Trying::new, (route, node), first),
        call_ensures(Trying::judge, (trying, outcome), verdict),
    ensures
        first.made() == 1,
        first.allowed() == (match route {
            Route::OpenSession
            | Route::CloseSession
            | Route::ChangePassword
            | Route::Backup => 1,
            _ => node@.attempts as nat,
        }),
        verdict == Verdict::Again <==> (outcome matches Err(failure) && (failure is Io
            || failure is Truncated)) && old(trying).made() < old(trying).allowed(),
        verdict != Verdict::Again ==> verdict == Verdict::Settled(outcome),
        final(trying).allowed() == old(trying).allowed(),
        final(trying).made() == old(trying).made() + (if verdict == Verdict::Again {
            1int
        } else {
            0
        }),
{
}

/// Copying a body asks for no more than is left and no more than there is room for, counts down by
/// what was read, and is cut short by a read of nothing before the end.
pub proof fn law_copies_end_where_the_body_does(
    copying: &mut Copying,
    room: usize,
    wanted: usize,
    read: usize,
    took: Result<(), Error>,
)
    requires
        call_ensures(Copying::wanted, (&*old(copying), room), wanted),
        call_ensures(Copying::took, (copying, read), took),
        read <= old(copying).left,
    ensures
        wanted <= room,
        wanted <= old(copying).left,
        wanted == room || wanted == old(copying).left,
        final(copying).left + read == old(copying).left,
        took is Err <==> read == 0 && old(copying).left > 0,
        took matches Err(error) ==> error == Error::Truncated,
{
}

/// A reply has the status and the length of its head and the body that was read, and is cut short
/// where none was.
pub proof fn law_replies_are_made_of_head_and_body(
    head: Head,
    body: Option<Vec<u8>>,
    reply: Result<Reply, Error>,
)
    requires
        call_ensures(Head::reply, (head, body), reply),
    ensures
        match body {
            Some(body) => reply matches Ok(reply) && reply.status == head.status && reply.length
                == head.length && reply.body@ == body@,
            None => reply matches Err(error) && error == Error::Truncated,
        },
{
}

/// What the calls on a response give is what its bytes, its lines and its head say.
pub proof fn law_responses_are_heard_as_they_are(
    response: &[u8],
    expects_body: bool,
    whole: Result<Reply, Error>,
    awaiting: Awaiting,
    line: &str,
    heading: Result<Heading, Error>,
    ended: Result<Heading, Error>,
    head: Head,
    following: Result<Following, Error>,
    streamed: Result<Following, Error>,
)
    requires
        call_ensures(crate::http::reply::read, (response, expects_body), whole),
        call_ensures(Awaiting::line, (awaiting, Some(line)), heading),
        call_ensures(Awaiting::line, (awaiting, None), ended),
        call_ensures(Head::following, (head, expects_body), following),
        call_ensures(Head::following_into, (head,), streamed),
    ensures
        match whole {
            Ok(reply) => reply_in(response@, expects_body) == Ok::<ReplyView, Error>(reply@),
            Err(error) => reply_in(response@, expects_body) == Err::<ReplyView, Error>(error),
        },
        heading == after_line(awaiting, Some(line@)),
        ended == Err::<Heading, Error>(Error::Truncated),
        following == held_body(head, expects_body),
        streamed == streamed_body(head),
{
}

/// What the calls on text give: the part inside the white space, the line before its end, and the
/// number that is written.
pub proof fn law_text_is_taken_apart_as_it_stands(
    text: &str,
    limit: u64,
    inner: String,
    line: String,
    number: Option<u64>,
)
    requires
        call_ensures(trim, (text,), inner),
        call_ensures(strip_line_end, (text,), line),
        call_ensures(parse_number, (text, limit), number),
    ensures
        exists|from: int, to: int| #[trigger]
            is_inner(text@, from, to) && inner@ == text@.subrange(from, to),
        line@ == without_line_end(text@),
        number is Some <==> number_of(text@, limit as nat) is Some,
        number matches Some(number) ==> number_of(text@, limit as nat) == Some(number as nat)
            && number <= limit,
{
    law_trimming_takes_white_space_away(text@);
}

/// What the calls that spell bytes give: base64, a header of a name and a password, and a path.
pub proof fn law_spellings_are_handed_out(
    bytes: &[u8],
    name: &str,
    password: &str,
    spelled: String,
    header: String,
    path: String,
)
    requires
        call_ensures(crate::http::basic::encode, (bytes,), spelled),
        call_ensures(crate::http::basic::header, (name, password), header),
        call_ensures(crate::http::object::encode, (name,), path),
    ensures
        spelled@ == base64(bytes@),
        header@ == basic_header(name@, password@),
        percent_decoded(path@) == Some(encode_utf8(name@)),
        path@ == percent(encode_utf8(name@)),
{
    law_paths_reach_the_node(encode_utf8(name@));
}

/// A call that fails is worth making again where the transport failed or the answer was cut short;
/// a route is asked for by its method, and only a call for a size is answered without a body.
pub proof fn law_routes_are_asked_for_by_method(
    failure: &Error,
    again: bool,
    route: Route,
    method: &'static str,
    expects: bool,
    attempts: u8,
    tries: u8,
)
    requires
        call_ensures(retryable, (failure,), again),
        call_ensures(Route::method, (route,), method),
        call_ensures(Route::expects_body, (route,), expects),
        call_ensures(Route::tries, (route, attempts), tries),
    ensures
        again <==> *failure is Io || *failure is Truncated,
        method@ == route.verb(),
        expects <==> !(route is SizeFile),
        tries == (match route {
            Route::OpenSession
            | Route::CloseSession
            | Route::ChangePassword
            | Route::Backup => 1,
            _ => attempts,
        }),
{
    law_routes_have_their_methods(route);
}

/// A report and the four fields of one make the same condition.
pub proof fn law_reports_are_read_once(
    body: &[u8],
    status: Option<String>,
    committed: Option<u64>,
    background_errors: Option<u64>,
    complaint: Option<String>,
    read: Result<Condition, Error>,
    made: Result<Condition, Error>,
)
    requires
        call_ensures(Condition::read, (body,), read),
        call_ensures(
            Condition::from_fields,
            (status, committed, background_errors, complaint),
            made,
        ),
    ensures
        read matches Ok(condition) ==> condition_in(body@) == Some(condition@),
        read matches Err(error) ==> error == Error::Malformed && condition_in(body@) is None,
        made matches Ok(condition) ==> condition_of(
            said(status),
            committed,
            background_errors,
            said(complaint),
        ) == Some(condition@),
        made matches Err(error) ==> error == Error::Malformed && condition_of(
            said(status),
            committed,
            background_errors,
            said(complaint),
        ) is None,
{
}

/// A handle is printed with everything but its secrets, in this order.
pub proof fn law_handles_are_printed_in_order(node: OperationsView)
    ensures
        shown_operations(node) == "Operations { address: "@ + (quoted(node.address) + (
        ", credential: "@ + ((if node.credential is Some {
            "\"<present>\""@
        } else {
            "\"<none>\""@
        }) + (", session: "@ + ((if node.session is Some {
            "\"<open>\""@
        } else {
            "\"<none>\""@
        }) + (", attempts: "@ + (decimal(node.attempts as nat) + " }"@))))))),
{
    let credential = if node.credential is Some {
        "\"<present>\""@
    } else {
        "\"<none>\""@
    };
    let session = if node.session is Some {
        "\"<open>\""@
    } else {
        "\"<none>\""@
    };
    let attempts = decimal(node.attempts as nat);
    let (t1, t2, t3, t4) = (
        "Operations { address: "@,
        ", credential: "@,
        ", session: "@,
        ", attempts: "@,
    );
    let h1 = t1 + quoted(node.address);
    let h2 = h1 + t2;
    let h3 = h2 + credential;
    let h4 = h3 + t3;
    let h5 = h4 + session;
    let h6 = h5 + t4;
    assert(shown_operations(node) == h6 + attempts + " }"@);
    let r6 = attempts + " }"@;
    lemma_assoc(h6, attempts, " }"@);
    let r5 = t4 + r6;
    lemma_assoc(h5, t4, r6);
    let r4 = session + r5;
    lemma_assoc(h4, session, r5);
    let r3 = t3 + r4;
    lemma_assoc(h3, t3, r4);
    let r2 = credential + r3;
    lemma_assoc(h2, credential, r3);
    lemma_assoc(h1, t2, r2);
    lemma_assoc(t1, quoted(node.address), t2 + r2);
}

/// A bucket is printed with its handle and its names, in this order.
pub proof fn law_buckets_are_printed_in_order(bucket: BucketView)
    ensures
        shown_bucket(bucket) == "Bucket { node: "@ + (shown_operations(bucket.node) + (
        ", namespace: "@ + (quoted(bucket.namespace) + (", database: "@ + (quoted(bucket.database)
            + (", name: "@ + (quoted(bucket.name) + " }"@))))))),
{
    let (t1, t2, t3, t4) = ("Bucket { node: "@, ", namespace: "@, ", database: "@, ", name: "@);
    let node = shown_operations(bucket.node);
    let h1 = t1 + node;
    let h2 = h1 + t2;
    let h3 = h2 + quoted(bucket.namespace);
    let h4 = h3 + t3;
    let h5 = h4 + quoted(bucket.database);
    let h6 = h5 + t4;
    assert(shown_bucket(bucket) == h6 + quoted(bucket.name) + " }"@);
    let r6 = quoted(bucket.name) + " }"@;
    lemma_assoc(h6, quoted(bucket.name), " }"@);
    let r5 = t4 + r6;
    lemma_assoc(h5, t4, r6);
    let r4 = quoted(bucket.database) + r5;
    lemma_assoc(h4, quoted(bucket.database), r5);
    let r3 = t3 + r4;
    lemma_assoc(h3, t3, r4);
    let r2 = quoted(bucket.namespace) + r3;
    lemma_assoc(h2, quoted(bucket.namespace), r3);
    lemma_assoc(h1, t2, r2);
    lemma_assoc(t1, node, t2 + r2);
}

/// A handle asks for what it is told to, presents what it holds, and is printed and copied as what
/// it is; so are its buckets.
pub proof fn law_handles_ask_for_what_they_are_told(
    node: &Operations,
    method: &str,
    path: &str,
    bytes: &[u8],
    presenting: Presenting,
    with_body: Vec<u8>,
    without: Vec<u8>,
    address: &str,
    text: String,
    copy: Operations,
)
    requires
        call_ensures(Operations::request, (node, method, path, Some(bytes), presenting), with_body),
        call_ensures(Operations::request, (node, method, path, None, presenting), without),
        call_ensures(Operations::address, (node,), address),
        call_ensures(Operations::shown, (node,), text),
        call_ensures(<Operations as Clone>::clone, (node,), copy),
    ensures
        with_body@ == request_bytes(node@, method@, path@, Some(bytes@), presenting),
        without@ == request_bytes(node@, method@, path@, None, presenting),
        address@ == node@.address,
        text@ == shown_operations(node@),
        copy@ == node@,
{
}

/// A bucket is reached through its own handle, and is printed and copied as what it is.
pub proof fn law_buckets_are_what_they_are(
    bucket: &Bucket,
    node: &Operations,
    text: String,
    copy: Bucket,
)
    requires
        call_ensures(Bucket::node, (bucket,), node),
        call_ensures(Bucket::shown, (bucket,), text),
        call_ensures(<Bucket as Clone>::clone, (bucket,), copy),
    ensures
        node@ == bucket@.node,
        text@ == shown_bucket(bucket@),
        copy@ == bucket@,
{
}

}
