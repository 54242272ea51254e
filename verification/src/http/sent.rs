//! What a node reads of what this client sends: the method, the path, the headers and the body of a
//! request, and the names and the file in a path.

use vstd::prelude::*;
use vstd::utf8::encode_utf8;

use crate::http::{header_line, presented, request_bytes, request_head, OperationsView, Presenting};
use crate::http::basic::{base64, basic_header, law_passwords_are_presented_as_basic};
use crate::http::line::{first_at, law_characters_are_found_where_they_first_stand};
use crate::http::object::{
    is_kept, law_paths_reach_the_node, percent, percent_byte, percent_decoded, route_of, BucketView,
};
use crate::text::{decimal, lemma_assoc, lemma_decimal_digits};

verus! {

/// What stands before a character, and what stands after it.
pub open spec fn read_part(text: Seq<char>, stop: char) -> Option<(Seq<char>, Seq<char>)> {
    let at = first_at(text, stop) as int;
    if at < text.len() {
        Some((text.take(at), text.skip(at + 1)))
    } else {
        None
    }
}

/// A line, and what stands after its end.
pub open spec fn read_line(text: Seq<char>) -> Option<(Seq<char>, Seq<char>)> {
    match read_part(text, '\r') {
        Some((line, rest)) if rest.len() > 0 && rest[0] == '\n' => Some((line, rest.skip(1))),
        _ => None,
    }
}

/// Headers as far as the empty line, each a name and a value, and what stands after that line.
pub open spec fn read_headers(text: Seq<char>) -> Option<
    (Seq<(Seq<char>, Seq<char>)>, Seq<char>),
>
    decreases text.len(),
{
    match read_line(text) {
        None => None,
        Some((line, rest)) => if line.len() == 0 {
            Some((seq![], rest))
        } else if rest.len() >= text.len() {
            None
        } else {
            match (read_part(line, ':'), read_headers(rest)) {
                (Some((name, value)), Some((headers, rest))) if value.len() > 0 && value[0]
                    == ' ' => Some((seq![(name, value.skip(1))] + headers, rest)),
                _ => None,
            }
        },
    }
}

/// The head of a request, as a node reads it.
pub struct HeadView {
    /// What is asked for.
    pub method: Seq<char>,
    /// Of what.
    pub path: Seq<char>,
    /// In which version of the protocol.
    pub version: Seq<char>,
    /// The headers, in order.
    pub headers: Seq<(Seq<char>, Seq<char>)>,
}

/// The head of a request, and what stands after it.
pub open spec fn read_head(text: Seq<char>) -> Option<(HeadView, Seq<char>)> {
    match read_part(text, ' ') {
        None => None,
        Some((method, rest)) => match read_part(rest, ' ') {
            None => None,
            Some((path, rest)) => match read_line(rest) {
                None => None,
                Some((version, rest)) => match read_headers(rest) {
                    None => None,
                    Some((headers, rest)) => Some(
                        (HeadView { method, path, version, headers }, rest),
                    ),
                },
            },
        },
    }
}

/// What a handle presents: the token of an open session where the call takes one, else the
/// password, else nothing.
pub open spec fn authorization(node: OperationsView, presenting: Presenting) -> Option<Seq<char>> {
    if presenting is Whatever && node.session is Some {
        node.session
    } else if node.credential is Some {
        Some((node.credential->0).1)
    } else {
        None
    }
}

/// The headers of a request: the host, that the connection is to be closed, what is presented where
/// anything is, and how long the body is where there is one.
pub open spec fn headers_owed(
    node: OperationsView,
    length: Option<nat>,
    presenting: Presenting,
) -> Seq<(Seq<char>, Seq<char>)> {
    let fixed = seq![("Host"@, node.address), ("Connection"@, "close"@)];
    let named = match authorization(node, presenting) {
        Some(value) => fixed.push(("Authorization"@, value)),
        None => fixed,
    };
    match length {
        Some(length) => named.push(("Content-Length"@, decimal(length))),
        None => named,
    }
}

proof fn lemma_read_part(part: Seq<char>, stop: char, rest: Seq<char>)
    requires
        !part.contains(stop),
    ensures
        read_part(part + (seq![stop] + rest), stop) == Some((part, rest)),
{
    let text = part + (seq![stop] + rest);
    let at = first_at(text, stop) as int;
    law_characters_are_found_where_they_first_stand(text, stop);
    assert(text[part.len() as int] == stop);
    if at < part.len() {
        assert(text[at] == part[at]);
        assert(part.contains(part[at]));
    }
    assert(at == part.len());
    assert(text.take(at) =~= part);
    assert(text.skip(at + 1) =~= rest);
}

proof fn lemma_read_line(line: Seq<char>, rest: Seq<char>)
    requires
        !line.contains('\r'),
    ensures
        read_line(line + (seq!['\r', '\n'] + rest)) == Some((line, rest)),
{
    assert(line + (seq!['\r', '\n'] + rest) =~= line + (seq!['\r'] + (seq!['\n'] + rest)));
    lemma_read_part(line, '\r', seq!['\n'] + rest);
    assert((seq!['\n'] + rest).skip(1) =~= rest);
}

/// A header as a request spells it.
#[verifier::opaque]
pub open spec fn spelled(name: Seq<char>, value: Seq<char>) -> Seq<char> {
    name + (seq![':', ' '] + (value + seq!['\r', '\n']))
}

proof fn lemma_read_header(name: Seq<char>, value: Seq<char>, rest: Seq<char>)
    requires
        name.len() > 0,
        !name.contains(':'),
        !name.contains('\r'),
        !value.contains('\r'),
        read_headers(rest) is Some,
    ensures
        read_headers(spelled(name, value) + rest) == Some(
            (seq![(name, value)] + (read_headers(rest)->0).0, (read_headers(rest)->0).1),
        ),
{
    reveal(spelled);
    let line = name + (seq![':'] + (seq![' '] + value));
    let text = spelled(name, value) + rest;
    assert(text =~= line + (seq!['\r', '\n'] + rest));
    assert forall|i: int| 0 <= i < line.len() implies #[trigger] line[i] != '\r' by {
        if i < name.len() {
            assert(name.contains(name[i]));
        } else if i >= name.len() + 2 {
            assert(line[i] == value[i - name.len() - 2]);
            assert(value.contains(value[i - name.len() - 2]));
        }
    }
    lemma_read_line(line, rest);
    lemma_read_part(name, ':', seq![' '] + value);
    assert((seq![' '] + value).skip(1) =~= value);
}

proof fn lemma_read_last(rest: Seq<char>)
    ensures
        read_headers(seq!['\r', '\n'] + rest) == Some(
            (Seq::<(Seq<char>, Seq<char>)>::empty(), rest),
        ),
{
    let line = Seq::<char>::empty();
    assert(line + (seq!['\r', '\n'] + rest) =~= seq!['\r', '\n'] + rest);
    lemma_read_line(line, rest);
}

/// The headers of a request, spelled out, and the empty line after them.
pub open spec fn spelled_headers(
    node: OperationsView,
    length: Option<nat>,
    presenting: Presenting,
) -> Seq<char> {
    let last = match length {
        Some(length) => spelled("Content-Length"@, decimal(length)) + seq!['\r', '\n'],
        None => seq!['\r', '\n'],
    };
    let named = match authorization(node, presenting) {
        Some(value) => spelled("Authorization"@, value) + last,
        None => last,
    };
    spelled("Host"@, node.address) + (spelled("Connection"@, "close"@) + named)
}

proof fn lemma_length_is_read(length: nat, rest: Seq<char>)
    requires
        read_headers(rest) is Some,
    ensures
        read_headers(spelled("Content-Length"@, decimal(length)) + rest) == Some(
            (
                seq![("Content-Length"@, decimal(length))] + (read_headers(rest)->0).0,
                (read_headers(rest)->0).1,
            ),
        ),
{
    reveal_strlit("Content-Length");
    lemma_decimal_digits(length);
    assert(!decimal(length).contains('\r'));
    lemma_read_header("Content-Length"@, decimal(length), rest);
}

proof fn lemma_authorization_is_read(value: Seq<char>, rest: Seq<char>)
    requires
        !value.contains('\r'),
        read_headers(rest) is Some,
    ensures
        read_headers(spelled("Authorization"@, value) + rest) == Some(
            (
                seq![("Authorization"@, value)] + (read_headers(rest)->0).0,
                (read_headers(rest)->0).1,
            ),
        ),
{
    reveal_strlit("Authorization");
    lemma_read_header("Authorization"@, value, rest);
}

proof fn lemma_fixed_headers_are_read(address: Seq<char>, rest: Seq<char>)
    requires
        !address.contains('\r'),
        read_headers(rest) is Some,
    ensures
        read_headers(spelled("Host"@, address) + (spelled("Connection"@, "close"@) + rest)) == Some(
            (
                seq![("Host"@, address)] + (seq![("Connection"@, "close"@)] + (read_headers(
                    rest,
                )->0).0),
                (read_headers(rest)->0).1,
            ),
        ),
{
    reveal_strlit("Host");
    reveal_strlit("Connection");
    reveal_strlit("close");
    lemma_read_header("Connection"@, "close"@, rest);
    lemma_read_header("Host"@, address, spelled("Connection"@, "close"@) + rest);
}

proof fn lemma_read_headers(node: OperationsView, length: Option<nat>, presenting: Presenting)
    requires
        !node.address.contains('\r'),
        authorization(node, presenting) matches Some(value) ==> !value.contains('\r'),
    ensures
        read_headers(spelled_headers(node, length, presenting)) == Some(
            (headers_owed(node, length, presenting), Seq::<char>::empty()),
        ),
{
    let end = seq!['\r', '\n'];
    assert(end + Seq::<char>::empty() =~= end);
    lemma_read_last(Seq::empty());
    let last = match length {
        Some(length) => spelled("Content-Length"@, decimal(length)) + end,
        None => end,
    };
    if let Some(length) = length {
        lemma_length_is_read(length, end);
    }
    let named = match authorization(node, presenting) {
        Some(value) => spelled("Authorization"@, value) + last,
        None => last,
    };
    if let Some(value) = authorization(node, presenting) {
        lemma_authorization_is_read(value, last);
    }
    lemma_fixed_headers_are_read(node.address, named);
    let further = (read_headers(named)->0).0;
    assert(seq![("Host"@, node.address)] + (seq![("Connection"@, "close"@)] + further)
        =~= headers_owed(node, length, presenting));
}

/// What a header spells, before what follows it.
proof fn lemma_spelled(name: Seq<char>, value: Seq<char>, rest: Seq<char>)
    ensures
        spelled(name, value) + rest == name + (seq![':', ' '] + (value + (seq!['\r', '\n'] + rest))),
{
    reveal(spelled);
    let end = seq!['\r', '\n'];
    lemma_assoc(name, seq![':', ' '] + (value + end), rest);
    lemma_assoc(seq![':', ' '], value + end, rest);
    lemma_assoc(value, end, rest);
}

proof fn lemma_literals()
    ensures
        " "@ == seq![' '],
        "\r\n"@ == seq!['\r', '\n'],
        "Authorization: "@ == "Authorization"@ + seq![':', ' '],
        "Content-Length: "@ == "Content-Length"@ + seq![':', ' '],
{
    reveal_strlit(" ");
    reveal_strlit("\r\n");
    reveal_strlit("Authorization: ");
    reveal_strlit("Authorization");
    reveal_strlit("Content-Length: ");
    reveal_strlit("Content-Length");
    assert(" "@ =~= seq![' ']);
    assert("\r\n"@ =~= seq!['\r', '\n']);
    assert("Authorization: "@ =~= "Authorization"@ + seq![':', ' ']);
    assert("Content-Length: "@ =~= "Content-Length"@ + seq![':', ' ']);
}

proof fn lemma_version_literal(rest: Seq<char>)
    ensures
        " HTTP/1.1\r\nHost: "@ + rest == seq![' '] + ("HTTP/1.1"@ + (seq!['\r', '\n'] + ("Host"@ + (
        seq![':', ' '] + rest)))),
{
    reveal_strlit("HTTP/1.1");
    reveal_strlit(" HTTP/1.1\r\nHost: ");
    reveal_strlit("Host");
    let named = "Host"@ + seq![':', ' '];
    let lined = seq!['\r', '\n'] + named;
    let versioned = "HTTP/1.1"@ + lined;
    assert(" HTTP/1.1\r\nHost: "@ =~= seq![' '] + versioned);
    lemma_assoc(seq![' '], versioned, rest);
    lemma_assoc("HTTP/1.1"@, lined, rest);
    lemma_assoc(seq!['\r', '\n'], named, rest);
    lemma_assoc("Host"@, seq![':', ' '], rest);
}

proof fn lemma_connection_literal(rest: Seq<char>)
    ensures
        "\r\nConnection: close\r\n"@ + rest == seq!['\r', '\n'] + (spelled(
            "Connection"@,
            "close"@,
        ) + rest),
{
    reveal(spelled);
    reveal_strlit("\r\nConnection: close\r\n");
    reveal_strlit("Connection");
    reveal_strlit("close");
    let held = spelled("Connection"@, "close"@);
    assert("\r\nConnection: close\r\n"@ =~= seq!['\r', '\n'] + held);
    lemma_assoc(seq!['\r', '\n'], held, rest);
}

proof fn lemma_header_line(name: Seq<char>, value: Seq<char>)
    ensures
        header_line(name + seq![':', ' '], Some(value)) == spelled(name, value),
{
    lemma_literals();
    reveal(spelled);
    lemma_assoc(name, seq![':', ' '], value);
    lemma_assoc(name, seq![':', ' '] + value, seq!['\r', '\n']);
    lemma_assoc(seq![':', ' '], value, seq!['\r', '\n']);
}

/// The head of a request is its method, its path and the version with a space between each two, and
/// then a header to a line: the address, that the connection is to be closed, what is presented,
/// and how long the body is, each where there is any; and an empty line.
pub proof fn law_heads_are_spelled_line_by_line(
    node: OperationsView,
    method: Seq<char>,
    path: Seq<char>,
    length: Option<nat>,
    presenting: Presenting,
)
    ensures
        request_head(node, method, path, length, presenting) == method + (seq![' '] + (path + (
        seq![' '] + ("HTTP/1.1"@ + (seq!['\r', '\n'] + spelled_headers(
            node,
            length,
            presenting,
        )))))),
{
    lemma_literals();
    let end = seq!['\r', '\n'];
    let a = header_line("Authorization: "@, presented(node, presenting));
    let written = match length {
        Some(length) => Some(decimal(length)),
        None => None,
    };
    let b = header_line("Content-Length: "@, written);
    let last = match length {
        Some(length) => spelled("Content-Length"@, decimal(length)) + end,
        None => end,
    };
    let named = match authorization(node, presenting) {
        Some(value) => spelled("Authorization"@, value) + last,
        None => last,
    };
    if let Some(length) = length {
        lemma_header_line("Content-Length"@, decimal(length));
    } else {
        assert(b + end =~= last);
    }
    if let Some(value) = authorization(node, presenting) {
        lemma_header_line("Authorization"@, value);
    } else {
        assert(a + last =~= named);
    }
    let close = "\r\nConnection: close\r\n"@;
    let version = " HTTP/1.1\r\nHost: "@;
    let h0 = method + seq![' '];
    let h1 = h0 + path;
    let h2 = h1 + version;
    let h3 = h2 + node.address;
    let h4 = h3 + close;
    let h5 = h4 + a;
    let head = request_head(node, method, path, length, presenting);
    assert(head == h5 + b + end);
    lemma_assoc(h5, b, end);
    lemma_assoc(h4, a, last);
    lemma_assoc(h3, close, named);
    lemma_connection_literal(named);
    let held = spelled("Connection"@, "close"@) + named;
    lemma_assoc(h2, node.address, end + held);
    let hosted = node.address + (end + held);
    lemma_assoc(h1, version, hosted);
    lemma_version_literal(hosted);
    lemma_spelled("Host"@, node.address, held);
    let tail = seq![' '] + ("HTTP/1.1"@ + (end + spelled_headers(node, length, presenting)));
    lemma_assoc(h0, path, tail);
    lemma_assoc(method, seq![' '], path + tail);
}

proof fn lemma_read_head(
    method: Seq<char>,
    path: Seq<char>,
    headers: Seq<char>,
    held: Seq<(Seq<char>, Seq<char>)>,
)
    requires
        !method.contains(' '),
        !path.contains(' '),
        read_headers(headers) == Some((held, Seq::<char>::empty())),
    ensures
        read_head(
            method + (seq![' '] + (path + (seq![' '] + ("HTTP/1.1"@ + (seq!['\r', '\n']
                + headers))))),
        ) == Some(
            (
                HeadView { method, path, version: "HTTP/1.1"@, headers: held },
                Seq::<char>::empty(),
            ),
        ),
{
    reveal_strlit("HTTP/1.1");
    let lined = "HTTP/1.1"@ + (seq!['\r', '\n'] + headers);
    lemma_read_part(method, ' ', path + (seq![' '] + lined));
    lemma_read_part(path, ' ', lined);
    assert(!"HTTP/1.1"@.contains('\r'));
    lemma_read_line("HTTP/1.1"@, headers);
}

/// A node reads of a request the method and the path that were asked for, and of its headers the
/// address, that the connection is to be closed, what the handle presents, and the length of the
/// body; and then the body itself, byte for byte, where there is one, and nothing else.
pub proof fn law_requests_are_read_as_sent(
    node: OperationsView,
    method: Seq<char>,
    path: Seq<char>,
    body: Option<Seq<u8>>,
    presenting: Presenting,
)
    requires
        !method.contains(' '),
        !path.contains(' '),
        !node.address.contains('\r'),
        authorization(node, presenting) matches Some(value) ==> !value.contains('\r'),
    ensures
        exists|head: Seq<char>|
            {
                &&& #[trigger] read_head(head) == Some(
                    (
                        HeadView {
                            method,
                            path,
                            version: "HTTP/1.1"@,
                            headers: headers_owed(
                                node,
                                match body {
                                    Some(body) => Some(body.len()),
                                    None => None,
                                },
                                presenting,
                            ),
                        },
                        Seq::<char>::empty(),
                    ),
                )
                &&& request_bytes(node, method, path, body, presenting) == encode_utf8(head) + (
                match body {
                    Some(body) => body,
                    None => Seq::empty(),
                })
            },
{
    let length = match body {
        Some(body) => Some(body.len()),
        None => None,
    };
    let head = request_head(node, method, path, length, presenting);
    let headers = spelled_headers(node, length, presenting);
    law_heads_are_spelled_line_by_line(node, method, path, length, presenting);
    lemma_read_headers(node, length, presenting);
    lemma_read_head(method, path, headers, headers_owed(node, length, presenting));
    assert(encode_utf8(head) + Seq::<u8>::empty() =~= encode_utf8(head));
}

/// A password that a handle was given is what a node reads back of what it presents: after `Basic`
/// and a space stands the base64 of the name, a colon and the password.
pub proof fn law_passwords_reach_the_node(
    node: OperationsView,
    name: Seq<char>,
    password: Seq<char>,
)
    requires
        node.credential == Some((name, basic_header(name, password))),
    ensures
        authorization(node, Presenting::PasswordOnly) == Some(
            seq!['B', 'a', 's', 'i', 'c', ' '] + base64(
                encode_utf8(name + (seq![':'] + password)),
            ),
        ),
        node.session is None ==> authorization(node, Presenting::Whatever) == authorization(
            node,
            Presenting::PasswordOnly,
        ),
{
    law_passwords_are_presented_as_basic(name, password);
}

/// A byte stands for itself in a path where it is a letter, a digit or one of `-._~/`, and is
/// spelled by a percent sign and two digits wherever it is anything else.
pub proof fn law_bytes_of_a_path_stand_for_themselves(byte: u8)
    ensures
        ({
            let ch = byte as char;
            let plain = ('a' <= ch <= 'z') || ('A' <= ch <= 'Z') || ('0' <= ch <= '9') || ch == '-'
                || ch == '.' || ch == '_' || ch == '~' || ch == '/';
            &&& is_kept(byte) == plain
            &&& plain ==> percent(seq![byte]) == seq![ch]
            &&& !plain ==> percent(seq![byte]).len() == 3 && percent(seq![byte])[0] == '%'
            &&& percent_decoded(percent(seq![byte])) == Some(seq![byte])
        }),
{
    law_paths_reach_the_node(seq![byte]);
    assert(seq![byte].drop_last() =~= Seq::empty());
    assert(percent(seq![byte].drop_last()) =~= Seq::empty());
    assert(percent(seq![byte]) =~= percent_byte(byte));
}

/// Bytes are spelled one after another: what two runs of them are spelled as is what each is, in
/// turn.
pub proof fn law_paths_are_spelled_byte_by_byte(start: Seq<u8>, more: Seq<u8>)
    ensures
        percent(start + more) == percent(start) + percent(more),
    decreases more.len(),
{
    if more.len() == 0 {
        assert(start + more =~= start);
        assert(percent(start) + percent(more) =~= percent(start));
    } else {
        law_paths_are_spelled_byte_by_byte(start, more.drop_last());
        assert((start + more).drop_last() =~= start + more.drop_last());
        assert(percent(start + more) =~= percent(start) + percent(more));
    }
}

/// The namespace, the database, the bucket and the file that a path names.
pub open spec fn read_route(path: Seq<char>) -> Option<(Seq<char>, Seq<char>, Seq<char>, Seq<u8>)> {
    match read_part(path, '/') {
        Some((before, rest)) if before.len() == 0 => match read_part(rest, '/') {
            Some((files, rest)) if files == "files"@ => match read_part(rest, '/') {
                None => None,
                Some((namespace, rest)) => match read_part(rest, '/') {
                    None => None,
                    Some((database, rest)) => match read_part(rest, '/') {
                        None => None,
                        Some((bucket, rest)) => match percent_decoded(rest) {
                            None => None,
                            Some(file) => Some((namespace, database, bucket, file)),
                        },
                    },
                },
            },
            _ => None,
        },
        _ => None,
    }
}

/// A path is `/files/`, the namespace, the database and the bucket as they are, each before a slash,
/// and the bytes of the file's name, spelled.
pub proof fn law_names_stand_in_a_path_as_they_are(bucket: BucketView, path: Seq<char>)
    ensures
        route_of(bucket, path) == "/files/"@ + (bucket.namespace + (seq!['/'] + (bucket.database + (
        seq!['/'] + (bucket.name + (seq!['/'] + percent(encode_utf8(path)))))))),
{
    reveal_strlit("/");
    assert("/"@ =~= seq!['/']);
    let file = percent(encode_utf8(path));
    let slash = seq!['/'];
    let h1 = "/files/"@ + bucket.namespace;
    let h2 = h1 + slash;
    let h3 = h2 + bucket.database;
    let h4 = h3 + slash;
    let h5 = h4 + bucket.name;
    lemma_assoc(h5, slash, file);
    lemma_assoc(h4, bucket.name, slash + file);
    lemma_assoc(h3, slash, bucket.name + (slash + file));
    let r3 = slash + (bucket.name + (slash + file));
    lemma_assoc(h2, bucket.database, r3);
    lemma_assoc(h1, slash, bucket.database + r3);
    lemma_assoc("/files/"@, bucket.namespace, slash + (bucket.database + r3));
}

/// A node reads of a path the namespace, the database, the bucket and the bytes of the file's name
/// that were asked for, whatever the file is called.
pub proof fn law_files_are_found_as_asked(bucket: BucketView, path: Seq<char>)
    requires
        !bucket.namespace.contains('/'),
        !bucket.database.contains('/'),
        !bucket.name.contains('/'),
    ensures
        read_route(route_of(bucket, path)) == Some(
            (bucket.namespace, bucket.database, bucket.name, encode_utf8(path)),
        ),
{
    reveal_strlit("/files/");
    reveal_strlit("files");
    reveal_strlit("/");
    let file = percent(encode_utf8(path));
    law_paths_reach_the_node(encode_utf8(path));
    let t3 = bucket.name + (seq!['/'] + file);
    let t2 = bucket.database + (seq!['/'] + t3);
    let t1 = bucket.namespace + (seq!['/'] + t2);
    let t0 = "files"@ + (seq!['/'] + t1);
    let before = Seq::<char>::empty();
    assert(route_of(bucket, path) =~= before + (seq!['/'] + t0));
    lemma_read_part(before, '/', t0);
    lemma_read_part("files"@, '/', t1);
    lemma_read_part(bucket.namespace, '/', t2);
    lemma_read_part(bucket.database, '/', t3);
    lemma_read_part(bucket.name, '/', file);
}

}
