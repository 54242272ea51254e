//! Building statements without ever building an injection.
//!
//! # The one guarantee
//!
//! A value never reaches the script text. Every value a caller supplies becomes a bound parameter;
//! the script carries `$p0`, and the value travels beside it in the store's own codec.
//!
//! # A name is grammar; a value is not
//!
//! Table names, field names and directions are syntax: a parameter may never supply one, so they
//! are interpolated. That is safe only because each is checked to be an ordinary identifier first,
//! in front of the interpolation.
//!
//! The check is deliberately narrower than what the node's lexer accepts. A guard that reasons
//! about what a lexer would do has to be re-checked every time the lexer changes; one that accepts
//! only `[A-Za-z_][A-Za-z0-9_]*` does not.
//!
//! # What this builder does not promise
//!
//! That the text it emits parses. That guarantee needs the node's own parser.
//!
//! Coverage is a staging order, not a shape: `SELECT`, `CREATE`, `UPDATE` and `DELETE` on one
//! record or one table. Anything else is written by hand and sent as a script.

use vstd::prelude::*;
use vstd::string::StringExecFns;

use crate::fields::with_field;
use crate::text::{
    decimal, decimal_text, is_digit, is_letter, letter, lower_text, lowered, numeral, quoted,
    quoted_text, same_text,
};
use crate::value::{Fields, Value, ValueView};
use crate::wire::message::Parameters;

pub mod asked;
pub mod built;
pub mod filter;
pub mod laws;
pub mod select;
pub mod woven;
pub mod write;

pub use crate::query::filter::{field, Field, Filter};
pub use crate::query::select::{Order, Select};
pub use crate::query::write::{Create, Delete, Update};

verus! {

/// A statement and the values its parameters bind to.
#[derive(Debug, Clone, PartialEq)]
pub struct Query {
    /// The statement text. Contains parameter references, never values.
    pub script: String,
    /// What those references bind to.
    pub parameters: Parameters,
}

/// What a statement says.
#[verifier::ext_equal]
pub struct QueryView {
    /// The statement text.
    pub script: Seq<char>,
    /// What its references bind to.
    pub parameters: Seq<(Seq<char>, ValueView)>,
}

impl View for Query {
    type V = QueryView;

    open spec fn view(&self) -> QueryView {
        QueryView { script: self.script@, parameters: self.parameters@ }
    }
}

/// Why a statement could not be built.
#[derive(Debug, Clone, PartialEq, Eq)]
#[non_exhaustive]
pub enum BuildError {
    /// A name that is not a name.
    ///
    /// Refused rather than quoted. Quoting would turn a caller's mistake into a statement that
    /// runs and means something else.
    NotAName {
        /// Which position the name was in: a table, a field.
        what: &'static str,
        /// What was supplied.
        name: String,
    },
    /// A statement with nothing to say.
    Incomplete {
        /// What is missing.
        what: &'static str,
    },
    /// A bound on staleness that is not a span of time.
    ///
    /// Only the shape is checked. What a span is worth is for the node to judge.
    NotASpan {
        /// What was supplied.
        span: String,
    },
    /// A word for who is to answer that names nobody.
    NotAnAnswerer {
        /// What was supplied.
        word: String,
    },
}

/// Why a statement could not be built.
#[verifier::ext_equal]
pub enum BuildErrorView {
    /// A name that is not a name.
    NotAName {
        /// Which position the name was in.
        what: Seq<char>,
        /// What was supplied.
        name: Seq<char>,
    },
    /// A statement with nothing to say.
    Incomplete {
        /// What is missing.
        what: Seq<char>,
    },
    /// A bound on staleness that is not a span of time.
    NotASpan {
        /// What was supplied.
        span: Seq<char>,
    },
    /// A word for who is to answer that names nobody.
    NotAnAnswerer {
        /// What was supplied.
        word: Seq<char>,
    },
}

impl View for BuildError {
    type V = BuildErrorView;

    open spec fn view(&self) -> BuildErrorView {
        match self {
            BuildError::NotAName { what, name } => BuildErrorView::NotAName {
                what: what@,
                name: name@,
            },
            BuildError::Incomplete { what } => BuildErrorView::Incomplete { what: what@ },
            BuildError::NotASpan { span } => BuildErrorView::NotASpan { span: span@ },
            BuildError::NotAnAnswerer { word } => BuildErrorView::NotAnAnswerer { word: word@ },
        }
    }
}

impl BuildErrorView {
    /// The reason in words.
    pub open spec fn words(self) -> Seq<char> {
        match self {
            BuildErrorView::NotAName { what, name } => what + " "@ + quoted(name)
                + " is not a name: a name is letters, digits and underscores, and does not start with a digit"@,
            BuildErrorView::Incomplete { what } => what,
            BuildErrorView::NotASpan { span } => quoted(span)
                + " is not a span of time: a span is digits and a unit, as often as it takes"@,
            BuildErrorView::NotAnAnswerer { word } => quoted(word)
                + " does not name who is to answer"@,
        }
    }
}

impl BuildError {
    /// The reason, in words.
    #[must_use]
    pub fn to_string(&self) -> (text: String)
        ensures
            text@ == self@.words(),
    {
        match self {
            BuildError::NotAName { what, name } => (*what).to_owned()
                .concat(" ")
                .concat(quoted_text(name.as_str()).as_str())
                .concat(
                    " is not a name: a name is letters, digits and underscores, and does not start with a digit",
                ),
            BuildError::Incomplete { what } => (*what).to_owned(),
            BuildError::NotASpan { span } => quoted_text(span.as_str()).concat(
                " is not a span of time: a span is digits and a unit, as often as it takes",
            ),
            BuildError::NotAnAnswerer { word } => quoted_text(word.as_str()).concat(
                " does not name who is to answer",
            ),
        }
    }
}

/// Where an answer must come from.
///
/// An enumeration, so the wrong word does not compile.
#[derive(Debug, Clone, Copy, PartialEq, Eq)]
#[non_exhaustive]
pub enum Answerer {
    /// The node where writes are decided. A follower at zero lag is level, not authoritative.
    Leader,
}

impl Answerer {
    /// The word a statement has for it.
    pub open spec fn word(self) -> Seq<char> {
        match self {
            Answerer::Leader => "LEADER"@,
        }
    }

    pub(crate) fn spelled(self) -> (word: &'static str)
        ensures
            word@ == self.word(),
    {
        match self {
            Answerer::Leader => "LEADER",
        }
    }
}

impl TryFrom<&str> for Answerer {
    type Error = BuildError;

    /// The answerer that a word names, in either case.
    fn try_from(word: &str) -> (named: Result<Self, BuildError>)
        ensures
            match named {
                Ok(answerer) => lowered(word@) == "leader"@ && answerer == Answerer::Leader,
                Err(error) => lowered(word@) != "leader"@ && error@
                    == (BuildErrorView::NotAnAnswerer { word: word@ }),
            },
    {
        if same_text(lower_text(word).as_str(), "leader") {
            Ok(Answerer::Leader)
        } else {
            Err(BuildError::NotAnAnswerer { word: word.to_owned() })
        }
    }
}

impl vstd::std_specs::convert::TryFromSpecImpl<&str> for Answerer {
    open spec fn obeys_try_from_spec() -> bool {
        false
    }

    open spec fn try_from_spec(word: &str) -> Result<Self, BuildError> {
        arbitrary()
    }
}

/// Whether a text may be interpolated into a statement as a name.
pub open spec fn is_name(text: Seq<char>) -> bool {
    text.len() > 0 && !is_digit(text[0]) && forall|i: int|
        0 <= i < text.len() ==> is_name_char(#[trigger] text[i])
}

/// Whether a character may stand in a name.
pub open spec fn is_name_char(ch: char) -> bool {
    is_letter(ch) || is_digit(ch) || ch == '_'
}

/// Whether a text has the shape of a span of time: digits and a unit, as often as it takes, so
/// that it starts with a digit, ends with a letter and holds nothing else.
pub open spec fn is_span(text: Seq<char>) -> bool {
    text.len() > 0 && is_digit(text.first()) && is_letter(text.last()) && forall|i: int|
        0 <= i < text.len() ==> is_letter(#[trigger] text[i]) || is_digit(text[i])
}

/// Why a name may not be interpolated, where it may not.
pub open spec fn name_fault(what: Seq<char>, name: Seq<char>) -> Option<BuildErrorView> {
    if is_name(name) {
        None
    } else {
        Some(BuildErrorView::NotAName { what, name })
    }
}

/// Whether `held` may be interpolated as a name.
pub(crate) fn name_holds(held: &str) -> (is: bool)
    ensures
        is == is_name(held@),
{
    let mut first = true;
    for ch in it: held.chars()
        invariant
            it.seq() == held@,
            first == (it.index() == 0),
            it.index() > 0 ==> !is_digit(held@[0]),
            forall|i: int| 0 <= i < it.index() ==> is_name_char(#[trigger] held@[i]),
    {
        assert(ch == held@[it.index() as int]);
        if !(letter(ch) || numeral(ch) || ch == '_') || (first && numeral(ch)) {
            return false;
        }
        first = false;
    }
    !first
}

/// Whether `held` has the shape of a span.
fn span_holds(held: &str) -> (is: bool)
    ensures
        is == is_span(held@),
{
    let mut first = true;
    let mut ends_in_letter = false;
    for ch in it: held.chars()
        invariant
            it.seq() == held@,
            first == (it.index() == 0),
            it.index() > 0 ==> is_digit(held@[0]),
            ends_in_letter == (it.index() > 0 && is_letter(held@[it.index() - 1])),
            forall|i: int|
                0 <= i < it.index() ==> is_letter(#[trigger] held@[i]) || is_digit(held@[i]),
    {
        assert(ch == held@[it.index() as int]);
        if !(letter(ch) || numeral(ch)) || (first && !numeral(ch)) {
            return false;
        }
        first = false;
        ends_in_letter = letter(ch);
    }
    ends_in_letter
}

pub(crate) fn check_name(what: &'static str, name: &str) -> (checked: Result<(), BuildError>)
    ensures
        match checked {
            Ok(_) => name_fault(what@, name@) is None,
            Err(error) => name_fault(what@, name@) == Some(error@),
        },
{
    if name_holds(name) {
        Ok(())
    } else {
        Err(BuildError::NotAName { what, name: name.to_owned() })
    }
}

/// Why a bound on staleness may not be interpolated, where it may not.
pub open spec fn span_fault(span: Seq<char>) -> Option<BuildErrorView> {
    if is_span(span) {
        None
    } else {
        Some(BuildErrorView::NotASpan { span })
    }
}

pub(crate) fn check_span(span: &str) -> (checked: Result<(), BuildError>)
    ensures
        match checked {
            Ok(_) => span_fault(span@) is None,
            Err(error) => span_fault(span@) == Some(error@),
        },
{
    if span_holds(span) {
        Ok(())
    } else {
        Err(BuildError::NotASpan { span: span.to_owned() })
    }
}

/// The number in the name of the parameter that holds the value at a place. The counter stops at
/// the largest number there is.
pub open spec fn parameter_number(at: nat) -> nat {
    if at <= usize::MAX {
        at
    } else {
        usize::MAX as nat
    }
}

/// The name of the parameter that holds the value at a place.
pub open spec fn parameter_name(at: nat) -> Seq<char> {
    "p"@ + decimal(parameter_number(at))
}

/// The reference to the parameter that holds the value at a place.
pub open spec fn reference(at: nat) -> Seq<char> {
    "$"@ + parameter_name(at)
}

/// The parameters that hold some values, each under its own name.
pub open spec fn bound(values: Seq<ValueView>) -> Seq<(Seq<char>, ValueView)>
    decreases values.len(),
{
    if values.len() == 0 {
        seq![]
    } else {
        with_field(
            bound(values.drop_last()),
            parameter_name((values.len() - 1) as nat),
            values.last(),
        )
    }
}

/// Collects values into parameters and hands back the reference to write.
///
/// One counter per statement, so `$p0` in one query is unrelated to `$p0` in the next.
pub(crate) struct Binder {
    parameters: Parameters,
    next: usize,
    values: Ghost<Seq<ValueView>>,
}

impl Binder {
    /// The values bound so far.
    pub closed spec fn values(&self) -> Seq<ValueView> {
        self.values@
    }

    /// Whether each value is held under its own name.
    pub closed spec fn well_formed(&self) -> bool {
        self.parameters@ == bound(self.values@) && self.next as nat == parameter_number(
            self.values@.len(),
        )
    }

    pub(crate) fn new() -> (binder: Self)
        ensures
            binder.well_formed(),
            binder.values() == Seq::<ValueView>::empty(),
    {
        Binder { parameters: Fields::new(), next: 0, values: Ghost(Seq::empty()) }
    }

    /// Bind `value` and return the reference that names it.
    pub(crate) fn bind(&mut self, value: Value) -> (text: String)
        requires
            old(self).well_formed(),
        ensures
            final(self).well_formed(),
            final(self).values() == old(self).values().push(value@),
            text@ == reference(old(self).values().len()),
    {
        let ghost before = self.values@;
        let ghost after = before.push(value@);
        let name = "p".to_owned().concat(decimal_text(self.next as u64).as_str());
        if self.next < usize::MAX {
            self.next = self.next + 1;
        }
        let text = "$".to_owned().concat(name.as_str());
        assert(after.drop_last() =~= before);
        self.parameters.insert(name, value);
        self.values = Ghost(after);
        text
    }

    pub(crate) fn finish(self) -> (parameters: Parameters)
        requires
            self.well_formed(),
        ensures
            parameters@ == bound(self.values()),
    {
        self.parameters
    }
}

/// A record identity as a statement spells it, with the identity at a place among the values.
pub open spec fn target(table: Seq<char>, at: nat) -> Seq<char> {
    table + ":"@ + reference(at)
}

/// A record identity as a statement spells it: `table:id`.
///
/// The identity travels as a parameter, not as text, so an identity that happens to spell a
/// statement is a record with an unusual name. Only the table is interpolated, and only after
/// being checked.
pub(crate) fn record_target(table: &str, id: Value, binder: &mut Binder) -> (spelled: Result<
    String,
    BuildError,
>)
    requires
        old(binder).well_formed(),
    ensures
        final(binder).well_formed(),
        match spelled {
            Ok(text) => name_fault("a table"@, table@) is None && text@ == target(
                table@,
                old(binder).values().len(),
            ) && final(binder).values() == old(binder).values().push(id@),
            Err(error) => name_fault("a table"@, table@) == Some(error@),
        },
{
    check_name("a table", table)?;
    let text = binder.bind(id);
    Ok(table.to_owned().concat(":").concat(text.as_str()))
}

}
