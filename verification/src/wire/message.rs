//! What a client asks, and what it gets back.

use std::collections::BTreeMap;

use vstd::prelude::*;
use vstd::string::StringExecFns;
use vstd::utf8::encode_utf8;

use crate::codec::encode;
use crate::codec::layout::{block, count, plain32, value_bytes};
use crate::codec::parse::{take, take_byte, take_text, take_u32};
use crate::codec::write::{count_of, put_lenbytes, put_u32};
use crate::error::Error;
use crate::fields::with_field;
use crate::text::{quoted, quoted_text, IntoText};
use crate::value::{entries_view, Fields, IntoValue, Value, ValueView};
use crate::wire::body::{put_text, reads, refuses, take_encoded, take_u64, well_shaped, Body, Read};

verus! {

/// The values a script's parameters are bound to.
pub type Parameters = Fields;

/// What the tables an answer references are called.
///
/// A reference holds a table id, and an id is meaningless outside the node that minted it: the
/// catalog lives on the node. Without these names a client can only render an opaque reference.
pub type Names = BTreeMap<u32, String>;

/// A script to run, and who is running it.
#[derive(Clone, PartialEq)]
pub struct Request {
    /// The script.
    pub script: String,
    /// The credentials, when the caller has any: a name, then a password.
    ///
    /// Optional because a store with no users declared is open and runs anything. A closed
    /// store's refusal comes from the node, not from a second rule here.
    pub credentials: Option<(String, String)>,
    /// The values the script's parameters bind to.
    ///
    /// Carried in the store's own codec rather than as text the node parses. A value the node has
    /// to read is a value that can be read as something else, and binding after parsing exists to
    /// make that impossible.
    pub parameters: Parameters,
}

/// What a request asks.
#[verifier::ext_equal]
pub struct RequestView {
    /// The script.
    pub script: Seq<char>,
    /// A name and a password.
    pub credentials: Option<(Seq<char>, Seq<char>)>,
    /// The values of the parameters, in the order of their names.
    pub parameters: Seq<(Seq<char>, ValueView)>,
}

impl View for Request {
    type V = RequestView;

    open spec fn view(&self) -> RequestView {
        RequestView {
            script: self.script@,
            credentials: match self.credentials {
                Some((name, password)) => Some((name@, password@)),
                None => None,
            },
            parameters: self.parameters@,
        }
    }
}

/// Who a request is from.
pub open spec fn credentials_bytes(credentials: Option<(Seq<char>, Seq<char>)>) -> Seq<u8> {
    match credentials {
        Some((name, password)) => seq![1u8] + block(encode_utf8(name)) + block(
            encode_utf8(password),
        ),
        None => seq![0u8],
    }
}

/// Parameters, one after the other: the name, then the value in the codec.
pub open spec fn each_parameter(parameters: Seq<(Seq<char>, ValueView)>) -> Seq<u8>
    decreases parameters.len(),
{
    if parameters.len() == 0 {
        seq![]
    } else {
        block(encode_utf8(parameters[0].0)) + block(value_bytes(parameters[0].1)) + each_parameter(
            parameters.drop_first(),
        )
    }
}

/// The body of a request frame.
pub open spec fn request_bytes(request: RequestView) -> Seq<u8> {
    block(encode_utf8(request.script)) + (credentials_bytes(request.credentials) + plain32(
        count(request.parameters.len()),
    ) + each_parameter(request.parameters))
}

/// Names, each in quotes and escaped, with commas between them.
pub open spec fn quoted_names(fields: Seq<(Seq<char>, ValueView)>) -> Seq<char>
    decreases fields.len(),
{
    if fields.len() == 0 {
        seq![]
    } else if fields.len() == 1 {
        quoted(fields[0].0)
    } else {
        quoted_names(fields.drop_last()) + ", "@ + quoted(fields.last().0)
    }
}

/// Who a request claims to be from, as it may be printed.
pub open spec fn claimed(credentials: Option<(Seq<char>, Seq<char>)>) -> Seq<char> {
    match credentials {
        Some((name, _)) => quoted(name),
        None => "\"nobody\""@,
    }
}

/// A request as it may be printed: the script, who it is from, and the names of what it binds.
/// Neither the password nor a value is shown.
pub open spec fn shown_request(request: RequestView) -> Seq<char> {
    "Request { script: "@ + quoted(request.script) + ", as: "@ + claimed(
        request.credentials,
    ) + ", parameters: ["@ + quoted_names(request.parameters) + "], .. }"@
}

impl Request {
    /// A request to run `script` as nobody in particular.
    #[must_use]
    pub fn new(script: impl IntoText) -> (request: Self)
        ensures
            request@ == (RequestView {
                script: script.text(),
                credentials: None,
                parameters: Seq::empty(),
            }),
    {
        Request { script: script.into_text(), credentials: None, parameters: Fields::new() }
    }

    /// The same request, signed in as `name`.
    #[must_use]
    pub fn as_user(self, name: impl IntoText, password: impl IntoText) -> (request: Self)
        ensures
            request@ == (RequestView {
                credentials: Some((name.text(), password.text())),
                ..self@
            }),
    {
        Request {
            script: self.script,
            credentials: Some((name.into_text(), password.into_text())),
            parameters: self.parameters,
        }
    }

    /// The same request with `name` bound to `value`.
    ///
    /// The value travels in the codec. It never becomes part of the script text, so a value
    /// cannot turn into syntax however it is spelled.
    #[must_use]
    pub fn bind(self, name: impl IntoText, value: impl IntoValue) -> (request: Self)
        ensures
            request@ == (RequestView {
                parameters: with_field(self@.parameters, name.text(), value.value()),
                ..self@
            }),
    {
        let mut parameters = self.parameters;
        parameters.insert(name.into_text(), value.into_value());
        Request { script: self.script, credentials: self.credentials, parameters }
    }

    /// The body of a request frame.
    #[must_use]
    pub fn encode(&self) -> (body: Vec<u8>)
        ensures
            body@ == request_bytes(self@),
    {
        let mut body: Vec<u8> = Vec::new();
        put_text(&mut body, self.script.as_str());
        match &self.credentials {
            Some((name, password)) => {
                body.push(1);
                put_text(&mut body, name.as_str());
                put_text(&mut body, password.as_str());
            },
            None => body.push(0),
        }
        assert(body@ =~= block(encode_utf8(self@.script)) + credentials_bytes(self@.credentials));
        let entries = self.parameters.entries();
        put_u32(&mut body, count_of(entries.len()));
        let ghost start = body@;
        let ghost held = self@.parameters;
        let mut at: usize = 0;
        assert(held.skip(0) =~= held);
        while at < entries.len()
            invariant
                at <= entries@.len(),
                held == entries_view(entries@),
                body@ + each_parameter(held.skip(at as int)) == start + each_parameter(held),
            decreases entries.len() - at,
        {
            let ghost so_far = body@;
            let ghost rest = held.skip(at as int);
            assert(rest.drop_first() =~= held.skip(at + 1));
            let entry = &entries[at];
            assert(entry.1@ == held[at as int].1);
            put_text(&mut body, entry.0.as_str());
            put_lenbytes(&mut body, encode(&entry.1).as_slice());
            at = at + 1;
            assert(body@ + each_parameter(held.skip(at as int)) =~= so_far + each_parameter(rest));
        }
        assert(body@ =~= start + each_parameter(held));
        assert(body@ =~= request_bytes(self@));
        body
    }

    /// The request as it may be printed.
    ///
    /// A struct holding a credential and printing it is how a password reaches a log line. The
    /// name is shown, because knowing who a refused request claimed to be is the whole value of
    /// printing one; the secret is not.
    #[must_use]
    pub fn shown(&self) -> (text: String)
        ensures
            text@ == shown_request(self@),
    {
        let claimed = match &self.credentials {
            Some((name, _)) => quoted_text(name.as_str()),
            None => "\"nobody\"".to_owned(),
        };
        let entries = self.parameters.entries();
        let ghost held = self@.parameters;
        let mut names = String::new();
        let mut at: usize = 0;
        assert(names@ =~= quoted_names(held.take(0)));
        while at < entries.len()
            invariant
                at <= entries@.len(),
                held == entries_view(entries@),
                names@ == quoted_names(held.take(at as int)),
            decreases entries.len() - at,
        {
            let ghost next = held.take(at + 1);
            assert(next.drop_last() =~= held.take(at as int));
            assert(next.last() == held[at as int]);
            if at > 0 {
                names.append(", ");
            } else {
                assert(names@ =~= Seq::empty());
            }
            names.append(quoted_text(entries[at].0.as_str()).as_str());
            at = at + 1;
            assert(names@ =~= quoted_names(next));
        }
        assert(held.take(at as int) =~= held);
        "Request { script: ".to_owned()
            .concat(quoted_text(self.script.as_str()).as_str())
            .concat(", as: ")
            .concat(claimed.as_str())
            .concat(", parameters: [")
            .concat(names.as_str())
            .concat("], .. }")
    }
}

/// A statement that did its work.
pub const OUTCOME_DONE: u8 = 0;

/// Records.
pub const OUTCOME_RECORDS: u8 = 1;

/// One value.
pub const OUTCOME_VALUE: u8 = 2;

/// Keys.
pub const OUTCOME_KEYS: u8 = 3;

/// A count of what was removed.
pub const OUTCOME_REMOVED: u8 = 4;

/// What a node said about whether its answer is exact.
///
/// Two states, because the third, a node that never sent the field, lives one level up as the
/// `Option` wrapping this. Keeping them apart is the whole reason this is not a `bool`: a caller
/// holding `Option<bool>` writes `unwrap_or(true)` sooner or later, and the value invented there
/// is a promise nobody sent.
#[derive(Debug, Clone, PartialEq, Eq)]
pub enum Exact {
    /// The node called the answer provably the records the question names.
    Yes,
    /// It did not, and said why.
    No {
        /// The reason, in the node's own words.
        reason: String,
    },
}

/// One word the query asked for, and the word the collection holds instead.
///
/// `typed` is the term after the field's analyzer ran, lowercased, folded and stemmed, rather
/// than the substring the reader wrote.
#[derive(Debug, Clone, PartialEq, Eq)]
pub struct Correction {
    /// The term as the query asked for it, analyzed.
    pub typed: String,
    /// The nearest term the collection's dictionary holds.
    pub instead: String,
}

/// What the node thinks the query might have meant.
///
/// Advice about a different question: the records beside this are the records the query as typed
/// returns.
///
/// [`Self::NotSought`] and [`Self::NothingNearer`] are the pair that must not collapse.
/// `NothingNearer` is a claim about the collection: a dictionary was asked and holds every term
/// the query named. `NotSought` is the absence of one.
#[derive(Debug, Clone, PartialEq, Eq)]
pub enum Suggested {
    /// No term dictionary was consulted for this read.
    NotSought,
    /// One was, and it holds every term the query named.
    NothingNearer,
    /// One was, and here is what it holds instead.
    DidYouMean(Vec<Correction>),
}

/// Something a read volunteered about how it answered.
///
/// A kind and a message, not a structure. The kinds are not a closed list and are not matched on:
/// an unfamiliar kind is a newer node saying something this build has no name for, which is not
/// an error.
#[derive(Debug, Clone, PartialEq, Eq)]
pub struct Note {
    /// Which kind of thing the read is saying.
    pub kind: String,
    /// What it says, in words meant for a person.
    pub message: String,
}

/// What a client got back for one statement.
#[derive(Debug, Clone, PartialEq)]
#[non_exhaustive]
pub enum Answer {
    /// The statement did its work.
    Done,
    /// Records, each with its identity as written and its value.
    ///
    /// Marked `#[non_exhaustive]` as well as the enum: this variant keeps gaining fields, because
    /// the frame grows by appending.
    #[non_exhaustive]
    Records {
        /// What was found: identity as the node spells it, and the value.
        ///
        /// The identity is spelled as [`Answer::Keys`] describes. A record reference stored inside
        /// the value is a different thing and keeps its qualified `table:id` form.
        records: Vec<(String, Value)>,
        /// How the node found them: `record`, `index`, `ordered`, or `scan`.
        ///
        /// An unrecognised path reads as `scan`, which is the honest name for a path this build
        /// does not know: it is the one that promises nothing.
        path: String,
        /// What the tables these records reference are called.
        names: Names,
        /// What the read volunteered about how it answered.
        ///
        /// Empty when the node had nothing to say, and also when the node predates notes
        /// entirely: the two are the same claim.
        notes: Vec<Note>,
        /// Whether the statement wrote `ONLY`: an assertion by its author that at most one record
        /// answers.
        only: bool,
        /// Whether the node called this answer provably the records the question names, and
        /// `None` when it did not say.
        ///
        /// The one field of this variant where absence is not the default. A node older than this
        /// field made no statement about exactness, and `None` is that, not `Some(Exact::Yes)`.
        exact: Option<Exact>,
        /// What the node thinks the query might have meant, and `None` when it did not say.
        suggestion: Option<Suggested>,
    },
    /// One value, and the names of the tables it references.
    Value {
        /// What was answered.
        value: Value,
        /// What the tables it references are called.
        names: Names,
    },
    /// Keys, as the node spells them.
    ///
    /// The id half alone, in the language's own form, so it can be written straight back into a
    /// script: `1`, `'ada'`, `uuid '…'`, `0x…`. The quoting is what separates the integer id `42`
    /// from the text id `'42'`, which are two different records.
    Keys(Vec<String>),
    /// How many records a conditional delete removed.
    Removed(u64),
    /// An outcome this build has no type for.
    ///
    /// Not an error. A newer node may answer with something this client has never seen, and a
    /// caller sees it rather than losing the outcome silently.
    Unknown,
}

/// What a node said about whether its answer is exact.
#[verifier::ext_equal]
pub enum ExactView {
    /// It is.
    Yes,
    /// It may not be.
    No {
        /// Why.
        reason: Seq<char>,
    },
}

/// What the node thinks the query might have meant.
#[verifier::ext_equal]
pub enum SuggestedView {
    /// No dictionary was consulted.
    NotSought,
    /// One was, and holds every term.
    NothingNearer,
    /// Each term that was typed, and the one held instead.
    DidYouMean(Seq<(Seq<char>, Seq<char>)>),
}

/// What records an answer holds, and what it says of them.
#[verifier::ext_equal]
pub struct RecordsView {
    /// Each identity and its value.
    pub records: Seq<(Seq<char>, ValueView)>,
    /// How the node found them.
    pub path: Seq<char>,
    /// What the tables are called.
    pub names: Map<u32, Seq<char>>,
    /// Each note's kind and message.
    pub notes: Seq<(Seq<char>, Seq<char>)>,
    /// Whether at most one record answers.
    pub only: bool,
    /// Whether the answer is exact.
    pub exact: Option<ExactView>,
    /// What the query might have meant.
    pub suggestion: Option<SuggestedView>,
}

/// What an answer says.
#[verifier::ext_equal]
pub enum AnswerView {
    /// The statement did its work.
    Done,
    /// Records.
    Records(RecordsView),
    /// One value.
    Value {
        /// What was answered.
        value: ValueView,
        /// What the tables are called.
        names: Map<u32, Seq<char>>,
    },
    /// Keys.
    Keys(Seq<Seq<char>>),
    /// How many records were removed.
    Removed(u64),
    /// Something this build has no type for.
    Unknown,
}

impl View for Exact {
    type V = ExactView;

    open spec fn view(&self) -> ExactView {
        match self {
            Exact::Yes => ExactView::Yes,
            Exact::No { reason } => ExactView::No { reason: reason@ },
        }
    }
}

/// What each correction says.
pub open spec fn corrections_view(corrections: Seq<Correction>) -> Seq<(Seq<char>, Seq<char>)> {
    Seq::new(corrections.len(), |i: int| (corrections[i].typed@, corrections[i].instead@))
}

/// What each note says.
pub open spec fn notes_view(notes: Seq<Note>) -> Seq<(Seq<char>, Seq<char>)> {
    Seq::new(notes.len(), |i: int| (notes[i].kind@, notes[i].message@))
}

/// What each of some texts says.
pub open spec fn texts_view(texts: Seq<String>) -> Seq<Seq<char>> {
    Seq::new(texts.len(), |i: int| texts[i]@)
}

/// What each table is called.
pub open spec fn names_view(names: Names) -> Map<u32, Seq<char>> {
    names@.map_values(|name: String| name@)
}

impl View for Suggested {
    type V = SuggestedView;

    open spec fn view(&self) -> SuggestedView {
        match self {
            Suggested::NotSought => SuggestedView::NotSought,
            Suggested::NothingNearer => SuggestedView::NothingNearer,
            Suggested::DidYouMean(corrections) => SuggestedView::DidYouMean(
                corrections_view(corrections@),
            ),
        }
    }
}

impl View for Answer {
    type V = AnswerView;

    open spec fn view(&self) -> AnswerView {
        match self {
            Answer::Done => AnswerView::Done,
            Answer::Records { records, path, names, notes, only, exact, suggestion } =>
                AnswerView::Records(
                RecordsView {
                    records: entries_view(records@),
                    path: path@,
                    names: names_view(*names),
                    notes: notes_view(notes@),
                    only: *only,
                    exact: match exact {
                        Some(exact) => Some(exact@),
                        None => None,
                    },
                    suggestion: match suggestion {
                        Some(suggestion) => Some(suggestion@),
                        None => None,
                    },
                },
            ),
            Answer::Value { value, names } => AnswerView::Value {
                value: value@,
                names: names_view(*names),
            },
            Answer::Keys(keys) => AnswerView::Keys(texts_view(keys@)),
            Answer::Removed(count) => AnswerView::Removed(*count),
            Answer::Unknown => AnswerView::Unknown,
        }
    }
}

/// What each of some answers says.
pub open spec fn answers_view(answers: Seq<Answer>) -> Seq<AnswerView> {
    Seq::new(answers.len(), |i: int| answers[i]@)
}

/// What was read, with one item before it.
pub open spec fn following<T>(item: T, read: Read<Seq<T>>) -> Read<Seq<T>> {
    match read {
        Err(error) => Err(error),
        Ok((items, rest)) => Ok((seq![item] + items, rest)),
    }
}

/// The access path a byte names.
pub open spec fn path_of(tag: u8) -> Seq<char> {
    if tag == 0 {
        "record"@
    } else if tag == 1 {
        "index"@
    } else if tag == 3 {
        "ordered"@
    } else {
        "scan"@
    }
}

/// So many tables, each with what it is called.
pub open spec fn take_each_name(bytes: Seq<u8>, count: nat) -> Read<Seq<(u32, Seq<char>)>>
    decreases count,
{
    if count == 0 {
        Ok((seq![], bytes))
    } else {
        match well_shaped(take_u32(bytes)) {
            Err(error) => Err(error),
            Ok((table, rest)) => match well_shaped(take_text(rest)) {
                Err(error) => Err(error),
                Ok((name, rest)) => following(
                    (table, name),
                    take_each_name(rest, (count - 1) as nat),
                ),
            },
        }
    }
}

/// Names with some more set among them, a later one in place of an earlier.
pub open spec fn with_names(
    names: Map<u32, Seq<char>>,
    more: Seq<(u32, Seq<char>)>,
) -> Map<u32, Seq<char>>
    decreases more.len(),
{
    if more.len() == 0 {
        names
    } else {
        with_names(names.insert(more[0].0, more[0].1), more.drop_first())
    }
}

/// What tables are called.
pub open spec fn take_names(bytes: Seq<u8>) -> Read<Map<u32, Seq<char>>> {
    match well_shaped(take_u32(bytes)) {
        Err(error) => Err(error),
        Ok((count, rest)) => match take_each_name(rest, count as nat) {
            Err(error) => Err(error),
            Ok((listed, rest)) => Ok((with_names(Map::empty(), listed), rest)),
        },
    }
}

/// So many records.
pub open spec fn take_each_record(bytes: Seq<u8>, count: nat) -> Read<
    Seq<(Seq<char>, ValueView)>,
>
    decreases count,
{
    if count == 0 {
        Ok((seq![], bytes))
    } else {
        match well_shaped(take_text(bytes)) {
            Err(error) => Err(error),
            Ok((id, rest)) => match take_encoded(rest) {
                Err(error) => Err(error),
                Ok((value, rest)) => following(
                    (id, value),
                    take_each_record(rest, (count - 1) as nat),
                ),
            },
        }
    }
}

/// Records, and before them how many there are.
pub open spec fn take_records(bytes: Seq<u8>) -> Read<Seq<(Seq<char>, ValueView)>> {
    match well_shaped(take_u32(bytes)) {
        Err(error) => Err(error),
        Ok((count, rest)) => take_each_record(rest, count as nat),
    }
}

/// So many pairs of texts.
pub open spec fn take_each_pair(bytes: Seq<u8>, count: nat) -> Read<Seq<(Seq<char>, Seq<char>)>>
    decreases count,
{
    if count == 0 {
        Ok((seq![], bytes))
    } else {
        match well_shaped(take_text(bytes)) {
            Err(error) => Err(error),
            Ok((first, rest)) => match well_shaped(take_text(rest)) {
                Err(error) => Err(error),
                Ok((second, rest)) => following(
                    (first, second),
                    take_each_pair(rest, (count - 1) as nat),
                ),
            },
        }
    }
}

/// Pairs of texts, and before them how many there are.
pub open spec fn take_pairs(bytes: Seq<u8>) -> Read<Seq<(Seq<char>, Seq<char>)>> {
    match well_shaped(take_u32(bytes)) {
        Err(error) => Err(error),
        Ok((count, rest)) => take_each_pair(rest, count as nat),
    }
}

/// So many texts.
pub open spec fn take_each_text(bytes: Seq<u8>, count: nat) -> Read<Seq<Seq<char>>>
    decreases count,
{
    if count == 0 {
        Ok((seq![], bytes))
    } else {
        match well_shaped(take_text(bytes)) {
            Err(error) => Err(error),
            Ok((text, rest)) => following(text, take_each_text(rest, (count - 1) as nat)),
        }
    }
}

/// Texts, and before them how many there are.
pub open spec fn take_texts(bytes: Seq<u8>) -> Read<Seq<Seq<char>>> {
    match well_shaped(take_u32(bytes)) {
        Err(error) => Err(error),
        Ok((count, rest)) => take_each_text(rest, count as nat),
    }
}

// Everything past the records is a later addition, and the frame grows by appending, so each
// field is read only if it is there: absent means that the node had nothing to add rather than
// that the body was truncated. The outcome's own length is what makes that distinction safe.

/// The notes, none where there is nothing.
pub open spec fn take_notes(bytes: Seq<u8>) -> Read<Seq<(Seq<char>, Seq<char>)>> {
    if bytes.len() == 0 {
        Ok((seq![], bytes))
    } else {
        take_pairs(bytes)
    }
}

/// Whether at most one record answers, which is not so where there is nothing.
pub open spec fn take_only(bytes: Seq<u8>) -> Read<bool> {
    if bytes.len() == 0 {
        Ok((false, bytes))
    } else {
        match well_shaped(take_byte(bytes)) {
            Err(error) => Err(error),
            Ok((flag, rest)) => Ok((flag != 0, rest)),
        }
    }
}

/// Whether the answer is exact, of which nothing is said where there is nothing.
///
/// A node that predates the field made no claim at all, and reading the silence as a yes would
/// put a promise in its mouth.
pub open spec fn take_exact(bytes: Seq<u8>) -> Read<Option<ExactView>> {
    if bytes.len() == 0 {
        Ok((None, bytes))
    } else {
        match well_shaped(take_byte(bytes)) {
            Err(error) => Err(error),
            Ok((approximate, rest)) => match well_shaped(take_text(rest)) {
                Err(error) => Err(error),
                Ok((reason, rest)) => Ok(
                    (
                        Some(
                            if approximate != 0 {
                                ExactView::No { reason }
                            } else {
                                ExactView::Yes
                            },
                        ),
                        rest,
                    ),
                ),
            },
        }
    }
}

/// What the query might have meant, of which nothing is said where there is nothing, nor in a
/// vocabulary this build lacks.
pub open spec fn take_suggestion(bytes: Seq<u8>) -> Read<Option<SuggestedView>> {
    if bytes.len() == 0 {
        Ok((None, bytes))
    } else {
        match well_shaped(take_byte(bytes)) {
            Err(error) => Err(error),
            Ok((state, rest)) => if state == 0 {
                Ok((Some(SuggestedView::NotSought), rest))
            } else if state == 1 {
                Ok((Some(SuggestedView::NothingNearer), rest))
            } else if state == 2 {
                match take_pairs(rest) {
                    Err(error) => Err(error),
                    Ok((pairs, rest)) => Ok((Some(SuggestedView::DidYouMean(pairs)), rest)),
                }
            } else {
                Ok((None, rest))
            },
        }
    }
}

/// Records and what is said of them, after the tag.
pub open spec fn records_of(bytes: Seq<u8>) -> Result<RecordsView, Error> {
    match well_shaped(take_byte(bytes)) {
        Err(error) => Err(error),
        Ok((path, rest)) => match take_names(rest) {
            Err(error) => Err(error),
            Ok((names, rest)) => match take_records(rest) {
                Err(error) => Err(error),
                Ok((records, rest)) => match take_notes(rest) {
                    Err(error) => Err(error),
                    Ok((notes, rest)) => match take_only(rest) {
                        Err(error) => Err(error),
                        Ok((only, rest)) => match take_exact(rest) {
                            Err(error) => Err(error),
                            Ok((exact, rest)) => match take_suggestion(rest) {
                                Err(error) => Err(error),
                                Ok((suggestion, _)) => Ok(
                                    RecordsView {
                                        records,
                                        path: path_of(path),
                                        names,
                                        notes,
                                        only,
                                        exact,
                                        suggestion,
                                    },
                                ),
                            },
                        },
                    },
                },
            },
        },
    }
}

/// What one outcome says. Bytes left over inside it are skipped rather than refused: a later
/// minor may add a trailing field, and an older client keeps reading the part it understands.
pub open spec fn answer_of(bytes: Seq<u8>) -> Result<AnswerView, Error> {
    match well_shaped(take_byte(bytes)) {
        Err(error) => Err(error),
        Ok((tag, rest)) => if tag == OUTCOME_DONE {
            Ok(AnswerView::Done)
        } else if tag == OUTCOME_RECORDS {
            match records_of(rest) {
                Err(error) => Err(error),
                Ok(records) => Ok(AnswerView::Records(records)),
            }
        } else if tag == OUTCOME_VALUE {
            match take_names(rest) {
                Err(error) => Err(error),
                Ok((names, rest)) => match take_encoded(rest) {
                    Err(error) => Err(error),
                    Ok((value, _)) => Ok(AnswerView::Value { value, names }),
                },
            }
        } else if tag == OUTCOME_KEYS {
            match take_texts(rest) {
                Err(error) => Err(error),
                Ok((keys, _)) => Ok(AnswerView::Keys(keys)),
            }
        } else if tag == OUTCOME_REMOVED {
            match take_u64(rest) {
                Err(error) => Err(error),
                Ok((count, _)) => Ok(AnswerView::Removed(count)),
            }
        } else {
            Ok(AnswerView::Unknown)
        },
    }
}

/// So many outcomes, each within its own length.
pub open spec fn take_each_answer(bytes: Seq<u8>, count: nat) -> Read<Seq<AnswerView>>
    decreases count,
{
    if count == 0 {
        Ok((seq![], bytes))
    } else {
        match well_shaped(crate::codec::parse::take_block(bytes)) {
            Err(error) => Err(error),
            Ok((outcome, rest)) => match answer_of(outcome) {
                Err(error) => Err(error),
                Ok(answer) => following(answer, take_each_answer(rest, (count - 1) as nat)),
            },
        }
    }
}

/// What every outcome in an answer frame's body says, in order.
pub open spec fn answers_of(body: Seq<u8>) -> Result<Seq<AnswerView>, Error> {
    match well_shaped(take_u32(body)) {
        Err(error) => Err(error),
        Ok((count, rest)) => match take_each_answer(rest, count as nat) {
            Err(error) => Err(error),
            Ok((answers, _)) => Ok(answers),
        },
    }
}

/// Read every outcome out of an answer frame's body.
///
/// An outcome is a `u32` length and then its tagged body. A tag this build does not know is
/// therefore skippable: the reader yields [`Answer::Unknown`], steps to the end of that outcome,
/// and carries on with the next one. So a newer node may introduce an outcome kind anywhere in an
/// answer without breaking this client.
///
/// Each outcome is decoded inside a cursor bounded by its own length, so a recognised outcome
/// cannot read into the next one either: a body that claims more than its length allows is
/// malformed rather than a mis-parse of everything after it.
pub fn decode_answers(body: &[u8]) -> (decoded: Result<Vec<Answer>, Error>)
    ensures
        match decoded {
            Ok(answers) => answers_of(body@) == Ok::<Seq<AnswerView>, Error>(
                answers_view(answers@),
            ),
            Err(error) => answers_of(body@) == Err::<Seq<AnswerView>, Error>(error),
        },
{
    let mut reader = Body::new(body);
    let count: u32 = reader.take_u32()?;
    let ghost whole = take_each_answer(reader.rest(), count as nat);
    let mut answers: Vec<Answer> = Vec::new();
    // The count is not used to pre-allocate: it is a stranger's number, and the frame ceiling
    // bounds the bytes rather than the claim.
    let mut left: u32 = count;
    assert(answers_view(answers@) =~= Seq::empty());
    proof {
        lemma_after_none(whole);
    }
    while left > 0
        invariant
            reader.well_formed(),
            answers_of(body@) == (match whole {
                Err(error) => Err(error),
                Ok((answers, _)) => Ok(answers),
            }),
            whole == after(
                answers_view(answers@),
                take_each_answer(reader.rest(), left as nat),
            ),
        decreases left,
    {
        let ghost had = answers_view(answers@);
        let length: u32 = reader.take_u32()?;
        let outcome = reader.take(length as usize)?;
        let answer = decode_one(outcome)?;
        proof {
            lemma_after(had, answer@, take_each_answer(reader.rest(), (left - 1) as nat));
        }
        answers.push(answer);
        left = left - 1;
        assert(answers_view(answers@) =~= had.push(answer@));
    }
    assert(answers_view(answers@) + Seq::empty() =~= answers_view(answers@));
    Ok(answers)
}

fn decode_one(outcome: &[u8]) -> (decoded: Result<Answer, Error>)
    ensures
        match decoded {
            Ok(answer) => answer_of(outcome@) == Ok::<AnswerView, Error>(answer@),
            Err(error) => answer_of(outcome@) == Err::<AnswerView, Error>(error),
        },
{
    let mut reader = Body::new(outcome);
    let tag: u8 = reader.take_u8()?;
    if tag == OUTCOME_DONE {
        Ok(Answer::Done)
    } else if tag == OUTCOME_RECORDS {
        decode_records(&mut reader)
    } else if tag == OUTCOME_VALUE {
        let names = decode_names(&mut reader)?;
        let value = reader.take_encoded()?;
        Ok(Answer::Value { value, names })
    } else if tag == OUTCOME_KEYS {
        Ok(Answer::Keys(decode_texts(&mut reader)?))
    } else if tag == OUTCOME_REMOVED {
        Ok(Answer::Removed(reader.take_u64()?))
    } else {
        // Consumes nothing further, and does not need to: the caller steps to the end of this
        // outcome either way.
        Ok(Answer::Unknown)
    }
}

fn decode_records(reader: &mut Body<'_>) -> (decoded: Result<Answer, Error>)
    requires
        old(reader).well_formed(),
    ensures
        match decoded {
            Ok(answer) => answer@ is Records && records_of(old(reader).rest()) == Ok::<
                RecordsView,
                Error,
            >(answer@->Records_0),
            Err(error) => records_of(old(reader).rest()) == Err::<RecordsView, Error>(error),
        },
{
    let path = path_name(reader.take_u8()?).to_owned();
    let names = decode_names(reader)?;
    let records = decode_each_record(reader)?;
    let notes = decode_notes(reader)?;
    let only = reader.remaining() > 0 && reader.take_u8()? != 0;
    let exact = decode_exact(reader)?;
    let suggestion = decode_suggestion(reader)?;
    Ok(Answer::Records { records, path, names, notes, only, exact, suggestion })
}

fn decode_each_record(reader: &mut Body<'_>) -> (decoded: Result<Vec<(String, Value)>, Error>)
    requires
        old(reader).well_formed(),
    ensures
        final(reader).well_formed(),
        match decoded {
            Ok(value) => reads(
                take_records(old(reader).rest()),
                entries_view(value@),
                final(reader).rest(),
            ),
            Err(error) => refuses(take_records(old(reader).rest()), error),
        },
{
    let count: u32 = reader.take_u32()?;
    let mut items: Vec<(String, Value)> = Vec::new();
    let ghost whole = take_each_record(reader.rest(), count as nat);
    proof {
        lemma_after_none(whole);
    }
    let mut left: u32 = count;
    assert(entries_view(items@) =~= Seq::empty());
    while left > 0
        invariant
            reader.well_formed(),
            whole == take_records(old(reader).rest()),
            whole == after(entries_view(items@), take_each_record(reader.rest(), left as nat)),
        decreases left,
    {
        let ghost had = entries_view(items@);
        let id = reader.take_text()?;
        let value = reader.take_encoded()?;
        let item = (id, value);
        proof {
            lemma_after(
                had,
                (item.0@, item.1@),
                take_each_record(reader.rest(), (left - 1) as nat),
            );
        }
        items.push(item);
        left = left - 1;
        assert(entries_view(items@) =~= had.push((item.0@, item.1@)));
    }
    assert(entries_view(items@) + Seq::empty() =~= entries_view(items@));
    Ok(items)
}

fn decode_pairs_as_notes(reader: &mut Body<'_>) -> (decoded: Result<Vec<Note>, Error>)
    requires
        old(reader).well_formed(),
    ensures
        final(reader).well_formed(),
        match decoded {
            Ok(value) => reads(
                take_pairs(old(reader).rest()),
                notes_view(value@),
                final(reader).rest(),
            ),
            Err(error) => refuses(take_pairs(old(reader).rest()), error),
        },
{
    let count: u32 = reader.take_u32()?;
    let mut items: Vec<Note> = Vec::new();
    let ghost whole = take_each_pair(reader.rest(), count as nat);
    proof {
        lemma_after_none(whole);
    }
    let mut left: u32 = count;
    assert(notes_view(items@) =~= Seq::empty());
    while left > 0
        invariant
            reader.well_formed(),
            whole == take_pairs(old(reader).rest()),
            whole == after(notes_view(items@), take_each_pair(reader.rest(), left as nat)),
        decreases left,
    {
        let ghost had = notes_view(items@);
        let kind = reader.take_text()?;
        let message = reader.take_text()?;
        let item = Note { kind, message };
        proof {
            lemma_after(
                had,
                (item.kind@, item.message@),
                take_each_pair(reader.rest(), (left - 1) as nat),
            );
        }
        items.push(item);
        left = left - 1;
        assert(notes_view(items@) =~= had.push((item.kind@, item.message@)));
    }
    assert(notes_view(items@) + Seq::empty() =~= notes_view(items@));
    Ok(items)
}

fn decode_corrections(reader: &mut Body<'_>) -> (decoded: Result<Vec<Correction>, Error>)
    requires
        old(reader).well_formed(),
    ensures
        final(reader).well_formed(),
        match decoded {
            Ok(value) => reads(
                take_pairs(old(reader).rest()),
                corrections_view(value@),
                final(reader).rest(),
            ),
            Err(error) => refuses(take_pairs(old(reader).rest()), error),
        },
{
    let count: u32 = reader.take_u32()?;
    let mut items: Vec<Correction> = Vec::new();
    let ghost whole = take_each_pair(reader.rest(), count as nat);
    proof {
        lemma_after_none(whole);
    }
    let mut left: u32 = count;
    assert(corrections_view(items@) =~= Seq::empty());
    while left > 0
        invariant
            reader.well_formed(),
            whole == take_pairs(old(reader).rest()),
            whole == after(corrections_view(items@), take_each_pair(reader.rest(), left as nat)),
        decreases left,
    {
        let ghost had = corrections_view(items@);
        let typed = reader.take_text()?;
        let instead = reader.take_text()?;
        let item = Correction { typed, instead };
        proof {
            lemma_after(
                had,
                (item.typed@, item.instead@),
                take_each_pair(reader.rest(), (left - 1) as nat),
            );
        }
        items.push(item);
        left = left - 1;
        assert(corrections_view(items@) =~= had.push((item.typed@, item.instead@)));
    }
    assert(corrections_view(items@) + Seq::empty() =~= corrections_view(items@));
    Ok(items)
}

fn decode_texts(reader: &mut Body<'_>) -> (decoded: Result<Vec<String>, Error>)
    requires
        old(reader).well_formed(),
    ensures
        final(reader).well_formed(),
        match decoded {
            Ok(value) => reads(
                take_texts(old(reader).rest()),
                texts_view(value@),
                final(reader).rest(),
            ),
            Err(error) => refuses(take_texts(old(reader).rest()), error),
        },
{
    let count: u32 = reader.take_u32()?;
    let mut items: Vec<String> = Vec::new();
    let ghost whole = take_each_text(reader.rest(), count as nat);
    proof {
        lemma_after_none(whole);
    }
    let mut left: u32 = count;
    assert(texts_view(items@) =~= Seq::empty());
    while left > 0
        invariant
            reader.well_formed(),
            whole == take_texts(old(reader).rest()),
            whole == after(texts_view(items@), take_each_text(reader.rest(), left as nat)),
        decreases left,
    {
        let ghost had = texts_view(items@);
        let item = reader.take_text()?;
        proof {
            lemma_after(had, item@, take_each_text(reader.rest(), (left - 1) as nat));
        }
        items.push(item);
        left = left - 1;
        assert(texts_view(items@) =~= had.push(item@));
    }
    assert(texts_view(items@) + Seq::empty() =~= texts_view(items@));
    Ok(items)
}

fn decode_notes(reader: &mut Body<'_>) -> (decoded: Result<Vec<Note>, Error>)
    requires
        old(reader).well_formed(),
    ensures
        final(reader).well_formed(),
        match decoded {
            Ok(value) => reads(
                take_notes(old(reader).rest()),
                notes_view(value@),
                final(reader).rest(),
            ),
            Err(error) => refuses(take_notes(old(reader).rest()), error),
        },
{
    if reader.remaining() > 0 {
        decode_pairs_as_notes(reader)
    } else {
        let notes: Vec<Note> = Vec::new();
        assert(notes_view(notes@) =~= Seq::empty());
        Ok(notes)
    }
}

fn decode_exact(reader: &mut Body<'_>) -> (decoded: Result<Option<Exact>, Error>)
    requires
        old(reader).well_formed(),
    ensures
        final(reader).well_formed(),
        match decoded {
            Ok(value) => reads(take_exact(old(reader).rest()), (match value {
                Some(exact) => Some(exact@),
                None => None,
            }), final(reader).rest()),
            Err(error) => refuses(take_exact(old(reader).rest()), error),
        },
{
    if reader.remaining() > 0 {
        let approximate: u8 = reader.take_u8()?;
        let reason = reader.take_text()?;
        Ok(Some(if approximate != 0 {
            Exact::No { reason }
        } else {
            Exact::Yes
        }))
    } else {
        Ok(None)
    }
}

fn decode_suggestion(reader: &mut Body<'_>) -> (decoded: Result<Option<Suggested>, Error>)
    requires
        old(reader).well_formed(),
    ensures
        final(reader).well_formed(),
        match decoded {
            Ok(value) => reads(take_suggestion(old(reader).rest()), (match value {
                Some(suggestion) => Some(suggestion@),
                None => None,
            }), final(reader).rest()),
            Err(error) => refuses(take_suggestion(old(reader).rest()), error),
        },
{
    if reader.remaining() > 0 {
        let state: u8 = reader.take_u8()?;
        if state == 0 {
            Ok(Some(Suggested::NotSought))
        } else if state == 1 {
            Ok(Some(Suggested::NothingNearer))
        } else if state == 2 {
            Ok(Some(Suggested::DidYouMean(decode_corrections(reader)?)))
        } else {
            // A newer node saying something in a vocabulary this build lacks, which reads as
            // silence rather than as a malformed answer.
            Ok(None)
        }
    } else {
        Ok(None)
    }
}

fn decode_names(reader: &mut Body<'_>) -> (decoded: Result<Names, Error>)
    requires
        old(reader).well_formed(),
    ensures
        final(reader).well_formed(),
        match decoded {
            Ok(value) => reads(
                take_names(old(reader).rest()),
                names_view(value),
                final(reader).rest(),
            ),
            Err(error) => refuses(take_names(old(reader).rest()), error),
        },
{
    let count: u32 = reader.take_u32()?;
    let mut names: Names = BTreeMap::new();
    let ghost whole = take_each_name(reader.rest(), count as nat);
    let mut left: u32 = count;
    assert(names_view(names) =~= Map::empty());
    while left > 0
        invariant
            reader.well_formed(),
            named_by(whole, Map::empty()) == take_names(old(reader).rest()),
            named_by(whole, Map::empty()) == named_by(
                take_each_name(reader.rest(), left as nat),
                names_view(names),
            ),
        decreases left,
    {
        let ghost had = names_view(names);
        let table: u32 = reader.take_u32()?;
        let name = reader.take_text()?;
        proof {
            lemma_named_by(
                (table, name@),
                take_each_name(reader.rest(), (left - 1) as nat),
                had,
            );
        }
        let ghost called = name@;
        names.insert(table, name);
        left = left - 1;
        assert(names_view(names) =~= had.insert(table, called));
    }
    Ok(names)
}

/// The access path a byte names.
fn path_name(tag: u8) -> (name: &'static str)
    ensures
        name@ == path_of(tag),
{
    match tag {
        0 => "record",
        1 => "index",
        3 => "ordered",
        _ => "scan",
    }
}

/// What was read, with some items before it.
spec fn after<T>(items: Seq<T>, read: Read<Seq<T>>) -> Read<Seq<T>> {
    match read {
        Err(error) => Err(error),
        Ok((more, rest)) => Ok((items + more, rest)),
    }
}

proof fn lemma_after_none<T>(read: Read<Seq<T>>)
    ensures
        after(Seq::empty(), read) == read,
{
    if let Ok((more, _)) = read {
        assert(Seq::<T>::empty() + more =~= more);
    }
}

proof fn lemma_after<T>(items: Seq<T>, item: T, read: Read<Seq<T>>)
    ensures
        after(items, following(item, read)) == after(items.push(item), read),
{
    if let Ok((more, _)) = read {
        assert(items + (seq![item] + more) =~= items.push(item) + more);
    }
}

/// The names that hold once those read are set among some others.
spec fn named_by(
    read: Read<Seq<(u32, Seq<char>)>>,
    names: Map<u32, Seq<char>>,
) -> Read<Map<u32, Seq<char>>> {
    match read {
        Err(error) => Err(error),
        Ok((more, rest)) => Ok((with_names(names, more), rest)),
    }
}

proof fn lemma_named_by(
    name: (u32, Seq<char>),
    read: Read<Seq<(u32, Seq<char>)>>,
    names: Map<u32, Seq<char>>,
)
    ensures
        named_by(following(name, read), names) == named_by(read, names.insert(name.0, name.1)),
{
    if let Ok((more, _)) = read {
        assert((seq![name] + more).drop_first() =~= more);
    }
}

}
