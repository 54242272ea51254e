//! The framing, the greeting, and one conversation end to end.

use tessaridb_client::codec::encode;
use tessaridb_client::protocol::{CEILING, GREETING, MAJOR, MINOR};
use tessaridb_client::wire::frame::{self, Heard, Incoming, Kind};
use tessaridb_client::wire::message::decode_answers;
use tessaridb_client::{
    Answer, Became, Change, Client, Correction, EncodingFault, Error, Exact, Feed, Fields, Follow,
    Note, Number, Request, Suggested, Value,
};

/// One outcome, behind the `u32` length the protocol puts in front of it.
fn outcome(tagged: &[u8]) -> Vec<u8> {
    let mut out = u32::try_from(tagged.len())
        .expect("a test outcome is small")
        .to_be_bytes()
        .to_vec();
    out.extend_from_slice(tagged);
    out
}

/// An answer frame body carrying these outcomes, in order.
fn answer_body(outcomes: &[Vec<u8>]) -> Vec<u8> {
    let count = u32::try_from(outcomes.len()).expect("a test answer is small");
    let mut body = count.to_be_bytes().to_vec();
    for one in outcomes {
        body.extend_from_slice(one);
    }
    body
}

/// Length-prefixed text.
fn text(held: &str) -> Vec<u8> {
    outcome(held.as_bytes())
}

#[test]
fn a_frame_round_trips_through_the_wire() {
    let bytes = frame::write(Kind::Request, b"hello").expect("a small frame should write");
    assert_eq!(bytes, b"\x01\x00\x00\x00\x05hello");
    let (kind, body) = frame::read(&bytes)
        .expect("a written frame should read")
        .expect("and should not be a clean goodbye");
    assert_eq!(kind, Kind::Request);
    assert_eq!(body, b"hello");
}

#[test]
fn a_clean_hangup_between_frames_is_not_an_error() {
    let read = frame::read(&[]).expect("a clean close is not an error");
    assert!(read.is_none(), "nothing at all is a goodbye, not a failure");
}

#[test]
fn a_partial_header_is_truncation_and_not_a_goodbye() {
    let error = frame::read(&[Kind::Request.tag(), 0, 0]).expect_err("a partial header must fail");
    assert!(matches!(error, Error::Truncated), "got {error:?}");
}

#[test]
fn a_partial_body_is_truncation() {
    let error = frame::read(&[2, 0, 0, 0, 2, 7]).expect_err("a partial body must fail");
    assert!(matches!(error, Error::Truncated), "got {error:?}");
}

#[test]
fn a_declared_length_above_the_ceiling_is_refused_before_reading_a_body() {
    let mut header = vec![Kind::Answer.tag()];
    header.extend_from_slice(&CEILING.saturating_add(1).to_be_bytes());
    // Deliberately no body follows.
    let error = frame::read(&header).expect_err("an oversized claim must be refused");
    match error {
        Error::TooLarge { length } => assert_eq!(length, CEILING.saturating_add(1)),
        other => panic!("expected TooLarge, got {other:?}"),
    }
}

#[test]
fn the_ceiling_applies_outbound_as_well() {
    let at = vec![0_u8; CEILING as usize];
    assert!(frame::write(Kind::Request, &at).is_ok());
    let over = vec![0_u8; CEILING as usize + 1];
    match frame::write(Kind::Request, &over) {
        Err(Error::TooLarge { length }) => assert_eq!(length, CEILING + 1),
        other => panic!("expected TooLarge, got {other:?}"),
    }
}

#[test]
fn an_unknown_frame_kind_ends_the_connection_rather_than_being_skipped() {
    let error = frame::read(&[99, 0, 0, 0, 0]).expect_err("an unknown kind must not be skipped");
    match error {
        Error::UnknownFrame { tag } => assert_eq!(tag, 99),
        other => panic!("expected UnknownFrame, got {other:?}"),
    }
}

#[test]
fn a_frame_survives_any_split() {
    let bytes = frame::write(Kind::Change, b"abc").expect("a small frame");
    let mut incoming = Incoming::new();
    for round in 0..2 {
        let mut at = 0;
        loop {
            // A byte at a time the first time, as much as is wanted the second.
            let wanted = if round == 0 { 1 } else { incoming.wanted() };
            assert_eq!(incoming.in_body(), at >= 5);
            let heard = incoming.hear(&bytes[at..at + wanted]).expect("part of a frame");
            at += wanted;
            match heard {
                Heard::More => assert!(at < bytes.len()),
                Heard::Frame(kind, body) => {
                    assert_eq!((kind, body.as_slice(), at), (Kind::Change, &b"abc"[..], 8));
                    break;
                }
                Heard::Goodbye => panic!("bytes are no goodbye"),
            }
        }
    }
    assert!(matches!(incoming.hear(&[]), Ok(Heard::Goodbye)));
    assert!(matches!(incoming.hear(&[1]), Ok(Heard::More)));
    assert!(matches!(incoming.hear(&[]), Err(Error::Truncated)));
}

#[test]
fn an_empty_frame_is_complete_with_its_header() {
    let bytes = frame::write(Kind::Refusal, b"").expect("an empty frame");
    assert_eq!(bytes, [3, 0, 0, 0, 0]);
    assert_eq!(
        frame::read(&bytes).expect("a frame"),
        Some((Kind::Refusal, vec![]))
    );
}

#[test]
fn kinds_have_their_own_bytes() {
    let kinds = [
        Kind::Request,
        Kind::Answer,
        Kind::Refusal,
        Kind::Subscribe,
        Kind::Change,
    ];
    for (at, kind) in kinds.into_iter().enumerate() {
        assert_eq!(usize::from(kind.tag()), at + 1);
        assert_eq!(Kind::from_tag(kind.tag()), Some(kind));
    }
    assert_eq!(Kind::from_tag(0), None);
    assert_eq!(Kind::from_tag(6), None);
}

#[test]
fn the_greeting_is_the_magic_and_the_version() {
    assert_eq!(frame::greet(), [b'T', b'E', b'S', b'S', 1, 1]);
}

#[test]
fn a_greeting_from_something_that_is_not_a_node_is_refused() {
    let error = frame::check_magic(*b"HTTP").expect_err("a foreign greeting must be refused");
    assert!(matches!(error, Error::NotThisProtocol), "got {error:?}");
    assert!(frame::check_magic(GREETING).is_ok());
}

#[test]
fn a_node_of_another_major_is_refused_at_the_greeting() {
    let error = frame::check_version([MAJOR.saturating_add(1), MINOR])
        .expect_err("a major mismatch must be refused here, not later");
    match error {
        Error::WrongVersion { found, supported } => {
            assert_eq!(found, MAJOR.saturating_add(1));
            assert_eq!(supported, MAJOR);
        }
        other => panic!("expected WrongVersion, got {other:?}"),
    }
}

#[test]
fn a_node_of_a_later_minor_is_accepted_and_its_minor_reported() {
    let heard = frame::check_version([MAJOR, MINOR.saturating_add(9)])
        .expect("a differing minor is not a refusal");
    assert_eq!(
        heard,
        MINOR.saturating_add(9),
        "the peer's minor is what decides what we may send it"
    );
}

#[test]
fn a_script_is_sent_and_its_answers_read_back() {
    let client = Client::with_stream(());
    let sent = client
        .run("DELETE user WHERE age < $limit;", None)
        .expect("a small request");
    let (kind, body) = frame::read(&sent).expect("a frame").expect("not a goodbye");
    assert_eq!(kind, Kind::Request);
    let written = String::from_utf8_lossy(&body);
    assert!(
        written.contains("DELETE user WHERE age < $limit;"),
        "the script should reach the wire verbatim"
    );

    // Two outcomes: Done, then Removed(7).
    let mut removed = vec![4_u8];
    removed.extend_from_slice(&7_u64.to_be_bytes());
    let reply = answer_body(&[outcome(&[0_u8]), outcome(&removed)]);
    let answers = Client::<()>::answered(Some((Kind::Answer, reply))).expect("two outcomes");
    assert_eq!(answers, vec![Answer::Done, Answer::Removed(7)]);
}

#[test]
fn a_bound_parameter_travels_as_bytes_and_never_as_script_text() {
    // The value is a string that spells a statement. If it were interpolated
    // into the script this test would find it there.
    let hostile = "'; DROP TABLE users; --";
    let request = Request::new("SELECT * FROM users WHERE name = $name;").bind("name", hostile);
    let body = request.encode();
    let shown = String::from_utf8_lossy(&body);

    assert!(
        shown.contains("SELECT * FROM users WHERE name = $name;"),
        "the script itself should be present"
    );
    let header = body.get(..4).expect("the body opens with a length");
    let script_len =
        u32::from_be_bytes(<[u8; 4]>::try_from(header).expect("four bytes are four bytes"));
    let script_len = usize::try_from(script_len).expect("a length fits a usize here");
    let script = body
        .get(4..4_usize.saturating_add(script_len))
        .map(String::from_utf8_lossy)
        .expect("the script occupies the length it declared");
    assert!(
        !script.contains("DROP TABLE"),
        "a bound value must not reach the script text; script was {script:?}"
    );
}

#[test]
fn a_request_is_laid_out_script_first() {
    let body = Request::new("GO;")
        .as_user("ada", "pw")
        .bind("b", true)
        .bind("a", Value::Null)
        .encode();
    let mut expected = text("GO;");
    expected.push(1);
    expected.extend_from_slice(&text("ada"));
    expected.extend_from_slice(&text("pw"));
    expected.extend_from_slice(&2_u32.to_be_bytes());
    expected.extend_from_slice(&text("a"));
    expected.extend_from_slice(&outcome(&encode(&Value::Null)));
    expected.extend_from_slice(&text("b"));
    expected.extend_from_slice(&outcome(&encode(&Value::Bool(true))));
    assert_eq!(body, expected);
    assert_eq!(Request::new("").encode(), [0, 0, 0, 0, 0, 0, 0, 0, 0]);
}

#[test]
fn a_later_parameter_of_the_same_name_wins() {
    let client = Client::with_stream(());
    let sent = client
        .run_with(
            "GO;",
            Some(("ada", "pw")),
            vec![
                ("x".to_owned(), Value::from(1_i64)),
                ("x".to_owned(), Value::from(2_i64)),
            ],
        )
        .expect("a small request");
    let request = Request::new("GO;").as_user("ada", "pw").bind("x", 2_i64);
    assert_eq!(sent, client.send(&request).expect("a small request"));
}

#[test]
fn printing_a_request_shows_no_secret() {
    let shown = Request::new("GO \"x\";")
        .as_user("ada", "s3cr3t")
        .bind("limit", 12345_i64)
        .bind("age", "hidden")
        .shown();
    assert_eq!(
        shown,
        "Request { script: \"GO \\\"x\\\";\", as: \"ada\", parameters: [\"age\", \"limit\"], .. }"
    );
    assert_eq!(
        Request::new("GO;").shown(),
        "Request { script: \"GO;\", as: \"nobody\", parameters: [], .. }"
    );
}

#[test]
fn a_refusal_carries_the_nodes_own_words() {
    let reply = (Kind::Refusal, b"no such table: widgets".to_vec());
    let error = Client::<()>::answered(Some(reply)).expect_err("a refusal should surface");
    match error {
        Error::Refused { message } => assert_eq!(message, "no such table: widgets"),
        other => panic!("expected Refused, got {other:?}"),
    }
    match Client::<()>::answered(Some((Kind::Refusal, vec![0xFF]))) {
        Err(Error::Refused { message }) => assert_eq!(
            message,
            "the node refused, in bytes this client could not read"
        ),
        other => panic!("expected Refused, got {other:?}"),
    }
}

#[test]
fn a_conversation_ends_on_what_a_node_does_not_send() {
    assert!(matches!(
        Client::<()>::answered(None),
        Err(Error::Truncated)
    ));
    for kind in [Kind::Request, Kind::Subscribe, Kind::Change] {
        match Client::<()>::answered(Some((kind, vec![]))) {
            Err(Error::UnknownFrame { tag }) => assert_eq!(tag, kind.tag()),
            other => panic!("expected UnknownFrame, got {other:?}"),
        }
    }
}

#[test]
fn an_unknown_outcome_is_stepped_over_and_the_next_one_still_reads() {
    // The unknown outcome sits in the MIDDLE, and its payload is deliberately a
    // well-formed `Removed(99)`. A decoder that ignored the length would read
    // that payload as the next outcome's tag and hand back an invented answer;
    // one that stopped at the unknown would silently lose the Done after it.
    let mut strange = vec![0xEE_u8];
    strange.extend_from_slice(&99_u64.to_be_bytes());
    let outcomes = [outcome(&[0_u8]), outcome(&strange), outcome(&[0_u8])];

    let answers = decode_answers(&answer_body(&outcomes)).expect("this should decode");
    assert_eq!(
        answers,
        vec![Answer::Done, Answer::Unknown, Answer::Done],
        "an unknown outcome is skipped by its length, not stopped at"
    );
}

#[test]
fn what_follows_the_last_outcome_changes_nothing() {
    let mut body = answer_body(&[outcome(&[0_u8]), outcome(&[0xEE])]);
    body.extend_from_slice(&[1, 2, 3]);
    let answers = decode_answers(&body).expect("this should decode");
    assert_eq!(answers, vec![Answer::Done, Answer::Unknown]);
}

#[test]
fn trailing_bytes_inside_a_known_outcome_are_skipped_rather_than_refused() {
    // What a later minor adding a field to an existing outcome kind looks like
    // to this build. Refusing here would make such an addition breaking, which
    // is the opposite of what a minor bump promises.
    let mut extended = vec![4_u8];
    extended.extend_from_slice(&7_u64.to_be_bytes());
    extended.extend_from_slice(b"a field this build has never heard of");
    let outcomes = [outcome(&extended), outcome(&[0_u8])];

    let answers = decode_answers(&answer_body(&outcomes)).expect("this should decode");
    assert_eq!(answers, vec![Answer::Removed(7), Answer::Done]);
}

#[test]
fn an_outcome_that_claims_more_than_its_length_allows_is_malformed() {
    // The bound works in the other direction too: a Removed needs eight bytes
    // after its tag, and this one is given four. Without the bound it would read
    // into the outcome that follows and answer with a plausible wrong number.
    let mut short = vec![4_u8];
    short.extend_from_slice(&[0, 0, 0, 1]);
    let outcomes = [outcome(&short), outcome(&[0_u8])];

    let error = decode_answers(&answer_body(&outcomes))
        .expect_err("a body larger than its length must not borrow from the next outcome");
    assert!(matches!(error, Error::Malformed), "got {error:?}");
}

#[test]
fn a_value_outcome_carries_the_names_its_references_need() {
    let mut tagged = vec![2_u8];
    // one name: table 3 is "users"
    tagged.extend_from_slice(&1_u32.to_be_bytes());
    tagged.extend_from_slice(&3_u32.to_be_bytes());
    tagged.extend_from_slice(&5_u32.to_be_bytes());
    tagged.extend_from_slice(b"users");
    // the value: integer 1
    let value = encode(&Value::Number(Number::Integer(1)));
    let value_len = u32::try_from(value.len()).expect("the test value is small");
    tagged.extend_from_slice(&value_len.to_be_bytes());
    tagged.extend_from_slice(&value);

    let answers = decode_answers(&answer_body(&[outcome(&tagged)])).expect("this should decode");
    match answers.first() {
        Some(Answer::Value { value, names }) => {
            assert_eq!(value, &Value::Number(Number::Integer(1)));
            assert_eq!(names.get(&3).map(String::as_str), Some("users"));
        }
        other => panic!("expected a Value outcome, got {other:?}"),
    }
}

/// Records with one record, and nothing after it.
fn bare_records(path: u8) -> Vec<u8> {
    let mut tagged = vec![1_u8, path];
    tagged.extend_from_slice(&0_u32.to_be_bytes());
    tagged.extend_from_slice(&1_u32.to_be_bytes());
    tagged.extend_from_slice(&text("'ada'"));
    tagged.extend_from_slice(&outcome(&encode(&Value::Object(Fields::of(vec![(
        "age".to_owned(),
        Value::from(36_i64),
    )])))));
    tagged
}

fn one(tagged: &[u8]) -> Result<Answer, Error> {
    decode_answers(&answer_body(&[outcome(tagged)])).map(|mut answers| answers.remove(0))
}

#[test]
fn records_grow_by_appending() {
    // The appended fields, one after the other: notes, `ONLY`, exactness, a suggestion.
    let mut tagged = bare_records(3);
    match one(&tagged).expect("bare records") {
        Answer::Records { records, path, names, notes, only, exact, suggestion, .. } => {
            assert_eq!(records.len(), 1);
            assert_eq!(records[0].0, "'ada'");
            assert_eq!(path, "ordered");
            assert!(names.is_empty() && notes.is_empty() && !only);
            assert_eq!(exact, None, "silence is not a promise");
            assert_eq!(suggestion, None);
        }
        other => panic!("expected records, got {other:?}"),
    }

    tagged.extend_from_slice(&1_u32.to_be_bytes());
    tagged.extend_from_slice(&text("fell-back"));
    tagged.extend_from_slice(&text("no index"));
    match one(&tagged).expect("with notes") {
        Answer::Records { notes, only, .. } => {
            assert_eq!(
                notes,
                vec![Note { kind: "fell-back".to_owned(), message: "no index".to_owned() }]
            );
            assert!(!only);
        }
        other => panic!("expected records, got {other:?}"),
    }

    tagged.push(1);
    let with_only = tagged.clone();
    tagged.push(1);
    tagged.extend_from_slice(&text("a sample"));
    match one(&tagged).expect("with exactness") {
        Answer::Records { only, exact, suggestion, .. } => {
            assert!(only);
            assert_eq!(exact, Some(Exact::No { reason: "a sample".to_owned() }));
            assert_eq!(suggestion, None);
        }
        other => panic!("expected records, got {other:?}"),
    }
    let mut exactly = with_only;
    exactly.push(0);
    exactly.extend_from_slice(&text(""));
    match one(&exactly).expect("exact") {
        Answer::Records { exact, .. } => assert_eq!(exact, Some(Exact::Yes)),
        other => panic!("expected records, got {other:?}"),
    }

    for (state, expected) in [
        (0_u8, Some(Suggested::NotSought)),
        (1, Some(Suggested::NothingNearer)),
        (9, None),
    ] {
        let mut suggested = tagged.clone();
        suggested.push(state);
        // And a field this build has never heard of behind it.
        suggested.extend_from_slice(b"later");
        match one(&suggested).expect("with a suggestion") {
            Answer::Records { suggestion, .. } => assert_eq!(suggestion, expected),
            other => panic!("expected records, got {other:?}"),
        }
    }
    tagged.push(2);
    tagged.extend_from_slice(&1_u32.to_be_bytes());
    tagged.extend_from_slice(&text("teh"));
    tagged.extend_from_slice(&text("the"));
    match one(&tagged).expect("with a correction") {
        Answer::Records { suggestion, .. } => assert_eq!(
            suggestion,
            Some(Suggested::DidYouMean(vec![Correction {
                typed: "teh".to_owned(),
                instead: "the".to_owned(),
            }]))
        ),
        other => panic!("expected records, got {other:?}"),
    }
}

#[test]
fn an_unrecognised_path_reads_as_a_scan() {
    for (byte, name) in [(0_u8, "record"), (1, "index"), (2, "scan"), (3, "ordered"), (77, "scan")] {
        match one(&bare_records(byte)).expect("records") {
            Answer::Records { path, .. } => assert_eq!(path, name),
            other => panic!("expected records, got {other:?}"),
        }
    }
}

#[test]
fn keys_are_carried_as_the_node_spells_them() {
    let mut tagged = vec![3_u8];
    tagged.extend_from_slice(&2_u32.to_be_bytes());
    tagged.extend_from_slice(&text("42"));
    tagged.extend_from_slice(&text("'42'"));
    assert_eq!(
        one(&tagged).expect("keys"),
        Answer::Keys(vec!["42".to_owned(), "'42'".to_owned()])
    );
}

#[test]
fn a_value_that_does_not_decode_is_told_apart_from_a_malformed_frame() {
    let mut tagged = vec![2_u8];
    tagged.extend_from_slice(&0_u32.to_be_bytes());
    tagged.extend_from_slice(&outcome(&[0xEE]));
    match one(&tagged) {
        Err(Error::Encoding { reason }) => {
            assert_eq!(reason, EncodingFault::UnknownTag { tag: 0xEE })
        }
        other => panic!("expected Encoding, got {other:?}"),
    }
    assert!(matches!(one(&[]), Err(Error::Malformed)));
    assert!(matches!(decode_answers(&[0, 0]), Err(Error::Malformed)));
}

#[test]
fn a_subscription_is_laid_out_position_first() {
    assert_eq!(Follow::everything().encode(), [0, 0, 0, 0, 0, 0, 0, 0, 0]);
    let follow = Follow::resuming_after(41).to_table("users");
    assert_eq!(follow.from, 42);
    let mut expected = 42_u64.to_be_bytes().to_vec();
    expected.push(1);
    expected.extend_from_slice(&text("users"));
    assert_eq!(follow.encode(), expected);
    assert_eq!(Follow::resuming_after(u64::MAX).from, u64::MAX);

    let client = Client::with_stream(7_u8);
    let (mut feed, sent) = client.follow(&follow).expect("a small subscription");
    assert_eq!(*feed.stream(), 7);
    assert_eq!(
        frame::read(&sent).expect("a frame"),
        Some((Kind::Subscribe, expected))
    );
}

fn change(kind: u8, value: Option<&Value>) -> Vec<u8> {
    let mut body = 5_u64.to_be_bytes().to_vec();
    body.extend_from_slice(&text("users"));
    body.extend_from_slice(&text("1"));
    body.push(kind);
    if let Some(value) = value {
        body.extend_from_slice(&outcome(&encode(value)));
    }
    body
}

#[test]
fn a_change_says_what_became_of_a_record() {
    let written = Change::decode(&change(0, Some(&Value::Null))).expect("a write");
    assert_eq!(
        written,
        Change {
            sequence: 5,
            table: "users".to_owned(),
            id: "1".to_owned(),
            became: Became::Written(Value::Null),
        }
    );
    let removed = Change::decode(&change(1, None)).expect("a removal");
    assert_eq!(removed.became, Became::Removed);
    assert!(matches!(
        Change::decode(&change(2, None)),
        Err(Error::Malformed)
    ));
    assert!(matches!(
        Change::decode(&change(0, None)),
        Err(Error::Malformed)
    ));
}

#[test]
fn a_feed_keeps_saying_that_it_has_ended() {
    let mut feed = Feed::new(());
    let next = feed.heard(Some((Kind::Change, change(1, None)))).expect("a change");
    assert_eq!(next.map(|change| change.sequence), Some(5));
    assert!(!feed.is_finished());
    assert!(matches!(
        feed.heard(Some((Kind::Change, vec![]))),
        Err(Error::Malformed)
    ));
    assert!(!feed.is_finished());
    assert!(matches!(feed.heard(None), Ok(None)));
    assert!(feed.is_finished());
    assert!(matches!(
        feed.heard(Some((Kind::Change, change(1, None)))),
        Ok(None)
    ));
}

#[test]
fn a_refused_subscription_ends_the_feed_in_the_nodes_words() {
    let mut feed = Feed::new(());
    match feed.heard(Some((Kind::Refusal, b"not watchable".to_vec()))) {
        Err(Error::Refused { message }) => assert_eq!(message, "not watchable"),
        other => panic!("expected Refused, got {other:?}"),
    }
    assert!(feed.is_finished());
    let mut feed = Feed::new(());
    assert!(matches!(
        feed.heard(Some((Kind::Answer, vec![]))),
        Err(Error::UnknownFrame { tag: 2 })
    ));
    assert!(feed.is_finished());
}

#[test]
fn failures_are_told_in_words() {
    let cases = [
        (Error::NotThisProtocol, "that is not a TessariDB node"),
        (
            Error::WrongVersion { found: 2, supported: 1 },
            "that node speaks version 2; this client speaks 1",
        ),
        (
            Error::UnknownFrame { tag: 99 },
            "frame kind 99 is not one this client knows",
        ),
        (
            Error::TooLarge { length: 16_777_217 },
            "a frame declared 16777217 bytes, which is more than this client will read",
        ),
        (Error::Truncated, "the connection ended mid-frame"),
        (
            Error::Malformed,
            "a frame's body is not the shape its header says",
        ),
        (
            Error::from(EncodingFault::Truncated),
            "a value could not be decoded: the value is truncated",
        ),
        (
            Error::NoWritablePeer,
            "that node does not accept writes, and no peer is declared writable",
        ),
        (Error::Refused { message: "no".to_owned() }, "no"),
        (
            Error::HttpRefused { status: 403, message: "not yours".to_owned() },
            "the node answered 403: not yours",
        ),
        (
            Error::NoCredential,
            "this handle presents no credential, and that call needs the current one",
        ),
    ];
    for (error, words) in cases {
        assert_eq!(error.to_string(), words);
    }
    let broken = std::io::Error::new(std::io::ErrorKind::Other, "the cable");
    assert_eq!(Error::from(broken).to_string(), "the cable");
}
