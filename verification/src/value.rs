//! The seventeen types a node carries.
//!
//! A decimal stays a decimal, a duration stays a duration, and a record reference stays a
//! reference: every one of them survives a round trip unchanged, and none has to be recovered
//! from text by guessing.
//!
//! A decimal is carried as the two numbers that define it, an unscaled mantissa and a count of
//! fractional digits, and a moment as seconds plus nanoseconds. A caller that wants an arithmetic
//! library or a calendar converts at its own edge.

use vstd::prelude::*;

use crate::double::Double;
use crate::fields::{
    field_of, holds_name, lemma_with_field, lemma_with_field_at, lemma_without_field, ordered,
    place_of, with_field, with_fields, without_field,
};
use crate::geometry::{Geometry, GeometryView};
use crate::order::{sorts_before, text_before};
use crate::text::same_text;

verus! {

/// A value, as a node carries it.
#[derive(Debug, PartialEq)]
#[non_exhaustive]
pub enum Value {
    /// The field is not present.
    ///
    /// Distinct from [`Value::Null`]: one says the field is absent, the other that it is present
    /// and holds nothing.
    Absent,
    /// The field is present and holds nothing.
    Null,
    /// A boolean.
    Bool(bool),
    /// A number: integer, float, or exact decimal.
    Number(Number),
    /// Text.
    String(String),
    /// Opaque bytes.
    Bytes(Vec<u8>),
    /// A span of time, which may be negative.
    Duration {
        /// Whole seconds; negative for a span running backwards.
        seconds: i64,
        /// The sub-second part, in nanoseconds.
        nanos: u32,
    },
    /// A point in time, as seconds and nanoseconds from the epoch.
    Datetime {
        /// Whole seconds from the epoch; negative before it.
        seconds: i64,
        /// The sub-second part, in nanoseconds.
        nanos: u32,
    },
    /// A universally unique identifier, as its sixteen bytes.
    Uuid([u8; 16]),
    /// A reference to a table, by the id the node minted.
    Table(u32),
    /// A reference to one record.
    Record(RecordRef),
    /// An ordered sequence.
    Array(Vec<Value>),
    /// A map from field name to value, held name-ordered, which makes two equal objects encode to
    /// equal bytes.
    Object(Fields),
    /// A span between two values.
    ///
    /// Boxed because a range holds values and a value may be a range.
    Range(Box<ValueRange>),
    /// A collection with no duplicates and no significant order.
    ///
    /// Carried as a sequence: the node normalises it on decode.
    SetOf(Vec<Value>),
    /// A shape on a sphere.
    Geometry(Geometry),
    /// A pattern, as written: neither compiled nor validated here.
    Regex(String),
}

/// A number, in one of the three shapes the store keeps.
#[derive(Debug, Clone, Copy, PartialEq)]
#[non_exhaustive]
pub enum Number {
    /// A 64-bit signed integer.
    Integer(i64),
    /// A double.
    Float(Double),
    /// An exact decimal, as the two numbers that define it: the value is
    /// `mantissa / 10^scale`.
    Decimal {
        /// The unscaled value.
        mantissa: i128,
        /// How many of its digits are fractional.
        scale: u32,
    },
}

/// The identity of one record.
#[derive(Debug, PartialEq, Eq)]
#[non_exhaustive]
pub enum RecordId {
    /// An integer identity.
    Int(i64),
    /// A textual identity.
    Text(String),
    /// A UUID identity, as its sixteen bytes.
    Uuid([u8; 16]),
    /// An opaque byte identity.
    Bytes(Vec<u8>),
}

/// A reference to one record in one table.
#[derive(Debug, PartialEq, Eq)]
pub struct RecordRef {
    /// The table, by the id the node minted.
    ///
    /// An id is meaningless outside the node that minted it, which is why an answer that carries
    /// references also carries the names.
    pub table: u32,
    /// Which record.
    pub id: RecordId,
}

/// One end of a span.
#[derive(Debug, PartialEq, Eq)]
pub enum Bound<T> {
    /// The end belongs to the span.
    Included(T),
    /// The span stops short of the end.
    Excluded(T),
    /// The span has no end on this side.
    Unbounded,
}

/// A span between two values, either end of which may be open.
#[derive(Debug, PartialEq)]
pub struct ValueRange {
    /// Where the span starts.
    pub start: Bound<Value>,
    /// Where it ends.
    pub end: Bound<Value>,
}

/// Values by name, held in the order of the names, each name once.
#[derive(Debug, PartialEq)]
pub struct Fields {
    entries: Vec<(String, Value)>,
}

/// What a record's identity is.
#[verifier::ext_equal]
pub enum RecordIdView {
    /// An integer identity.
    Int(i64),
    /// A textual identity.
    Text(Seq<char>),
    /// A UUID identity.
    Uuid(Seq<u8>),
    /// An opaque byte identity.
    Bytes(Seq<u8>),
}

/// What a reference refers to.
#[verifier::ext_equal]
pub struct RecordRefView {
    /// The table.
    pub table: u32,
    /// Which record.
    pub id: RecordIdView,
}

/// What a span spans.
#[verifier::ext_equal]
pub struct RangeView {
    /// Where the span starts.
    pub start: Bound<ValueView>,
    /// Where it ends.
    pub end: Bound<ValueView>,
}

/// What a value holds.
#[verifier::ext_equal]
pub enum ValueView {
    /// An absent field.
    Absent,
    /// A field that holds nothing.
    Null,
    /// A boolean.
    Bool(bool),
    /// A number.
    Number(Number),
    /// Text.
    String(Seq<char>),
    /// Opaque bytes.
    Bytes(Seq<u8>),
    /// A span of time.
    Duration {
        /// Whole seconds.
        seconds: i64,
        /// Nanoseconds.
        nanos: u32,
    },
    /// A point in time.
    Datetime {
        /// Whole seconds.
        seconds: i64,
        /// Nanoseconds.
        nanos: u32,
    },
    /// A universally unique identifier.
    Uuid(Seq<u8>),
    /// A reference to a table.
    Table(u32),
    /// A reference to a record.
    Record(RecordRefView),
    /// An ordered sequence.
    Array(Seq<ValueView>),
    /// Values by name, in the order of the names.
    Object(Seq<(Seq<char>, ValueView)>),
    /// A span between two values.
    Range(Box<RangeView>),
    /// A collection without order.
    SetOf(Seq<ValueView>),
    /// A shape.
    Geometry(GeometryView),
    /// A pattern.
    Regex(Seq<char>),
}

impl View for RecordId {
    type V = RecordIdView;

    open spec fn view(&self) -> RecordIdView {
        match self {
            RecordId::Int(value) => RecordIdView::Int(*value),
            RecordId::Text(text) => RecordIdView::Text(text@),
            RecordId::Uuid(bytes) => RecordIdView::Uuid(bytes@),
            RecordId::Bytes(bytes) => RecordIdView::Bytes(bytes@),
        }
    }
}

impl View for RecordRef {
    type V = RecordRefView;

    open spec fn view(&self) -> RecordRefView {
        RecordRefView { table: self.table, id: self.id@ }
    }
}

/// What a value holds, the values inside it included.
pub open spec fn value_view(value: Value) -> ValueView
    decreases value,
{
    match value {
        Value::Absent => ValueView::Absent,
        Value::Null => ValueView::Null,
        Value::Bool(flag) => ValueView::Bool(flag),
        Value::Number(number) => ValueView::Number(number),
        Value::String(text) => ValueView::String(text@),
        Value::Bytes(bytes) => ValueView::Bytes(bytes@),
        Value::Duration { seconds, nanos } => ValueView::Duration { seconds, nanos },
        Value::Datetime { seconds, nanos } => ValueView::Datetime { seconds, nanos },
        Value::Uuid(bytes) => ValueView::Uuid(bytes@),
        Value::Table(table) => ValueView::Table(table),
        Value::Record(reference) => ValueView::Record(reference@),
        Value::Array(items) => ValueView::Array(values_view(items@)),
        Value::Object(fields) => ValueView::Object(fields_view(fields)),
        Value::Range(range) => ValueView::Range(Box::new(range_view(*range))),
        Value::SetOf(items) => ValueView::SetOf(values_view(items@)),
        Value::Geometry(shape) => ValueView::Geometry(shape@),
        Value::Regex(pattern) => ValueView::Regex(pattern@),
    }
}

/// What each of some values holds.
pub open spec fn values_view(items: Seq<Value>) -> Seq<ValueView>
    decreases items,
{
    Seq::new(
        items.len(),
        |i: int|
            if 0 <= i < items.len() {
                value_view(items[i])
            } else {
                arbitrary()
            },
    )
}

/// What one end of a span is.
pub open spec fn bound_view(bound: Bound<Value>) -> Bound<ValueView>
    decreases bound,
{
    match bound {
        Bound::Included(value) => Bound::Included(value_view(value)),
        Bound::Excluded(value) => Bound::Excluded(value_view(value)),
        Bound::Unbounded => Bound::Unbounded,
    }
}

/// What a span spans.
pub open spec fn range_view(range: ValueRange) -> RangeView
    decreases range,
{
    RangeView { start: bound_view(range.start), end: bound_view(range.end) }
}

/// What some fields hold, in the order of their names.
pub closed spec fn fields_view(fields: Fields) -> Seq<(Seq<char>, ValueView)>
    decreases fields,
{
    entries_view(fields.entries@)
}

/// What each of some named values holds.
pub open spec fn entries_view(entries: Seq<(String, Value)>) -> Seq<(Seq<char>, ValueView)>
    decreases entries,
{
    Seq::new(
        entries.len(),
        |i: int|
            if 0 <= i < entries.len() {
                (entries[i].0@, value_view(entries[i].1))
            } else {
                arbitrary()
            },
    )
}

impl View for Value {
    type V = ValueView;

    open spec fn view(&self) -> ValueView {
        value_view(*self)
    }
}

impl View for ValueRange {
    type V = RangeView;

    open spec fn view(&self) -> RangeView {
        range_view(*self)
    }
}

impl View for Fields {
    type V = Seq<(Seq<char>, ValueView)>;

    open spec fn view(&self) -> Seq<(Seq<char>, ValueView)> {
        fields_view(*self)
    }
}

impl Fields {
    #[verifier::type_invariant]
    spec fn in_order(self) -> bool {
        forall|i: int, j: int|
            0 <= i < j < self.entries@.len() ==> text_before(
                (#[trigger] self.entries@[i]).0@,
                (#[trigger] self.entries@[j]).0@,
            )
    }

    /// No fields.
    #[must_use]
    pub fn new() -> (fields: Self)
        ensures
            fields@ == Seq::<(Seq<char>, ValueView)>::empty(),
    {
        let fields = Fields { entries: Vec::new() };
        assert(fields@ =~= Seq::<(Seq<char>, ValueView)>::empty());
        fields
    }

    /// How many fields there are.
    #[must_use]
    pub fn len(&self) -> (len: usize)
        ensures
            len == self@.len(),
    {
        self.entries.len()
    }

    /// Whether there are none.
    #[must_use]
    pub fn is_empty(&self) -> (empty: bool)
        ensures
            empty == (self@.len() == 0),
    {
        self.entries.len() == 0
    }

    /// The fields, in the order of their names.
    #[must_use]
    pub fn entries(&self) -> (entries: &Vec<(String, Value)>)
        ensures
            entries_view(entries@) == self@,
            ordered(self@),
    {
        proof {
            use_type_invariant(self);
        }
        &self.entries
    }

    /// Where `name` is, or would go.
    fn find(&self, name: &str) -> (at: usize)
        ensures
            at <= self@.len(),
            forall|i: int| 0 <= i < at ==> text_before((#[trigger] self@[i]).0, name@),
            at < self@.len() ==> !text_before(self@[at as int].0, name@),
    {
        let mut at: usize = 0;
        while at < self.entries.len() && sorts_before(self.entries[at].0.as_str(), name)
            invariant
                at <= self.entries@.len(),
                forall|i: int| 0 <= i < at ==> text_before((#[trigger] self@[i]).0, name@),
            decreases self.entries.len() - at,
        {
            at = at + 1;
        }
        at
    }

    /// The value under `name`.
    #[must_use]
    pub fn get(&self, name: &str) -> (value: Option<&Value>)
        ensures
            ordered(self@),
            match value {
                Some(value) => field_of(self@, name@) == Some(value@),
                None => field_of(self@, name@) is None,
            },
    {
        proof {
            use_type_invariant(self);
        }
        let at: usize = self.find(name);
        proof {
            lemma_with_field_at(self@, name@, ValueView::Null, at as int);
        }
        if at < self.entries.len() && same_text(self.entries[at].0.as_str(), name) {
            Some(&self.entries[at].1)
        } else {
            None
        }
    }

    /// Puts `value` under `name`, and gives back what was there.
    pub fn insert(&mut self, name: String, value: Value) -> (replaced: Option<Value>)
        ensures
            final(self)@ == with_field(old(self)@, name@, value@),
            ordered(final(self)@),
            field_of(final(self)@, name@) == Some(value@),
            forall|other: Seq<char>|
                other != name@ ==> #[trigger] field_of(final(self)@, other) == field_of(
                    old(self)@,
                    other,
                ),
            match replaced {
                Some(was) => field_of(old(self)@, name@) == Some(was@),
                None => field_of(old(self)@, name@) is None,
            },
    {
        proof {
            use_type_invariant(&*self);
        }
        let ghost before = self@;
        let at: usize = self.find(name.as_str());
        proof {
            lemma_with_field_at(before, name@, value@, at as int);
            lemma_with_field(before, name@, value@);
        }
        let mut entries: Vec<(String, Value)> = Vec::new();
        std::mem::swap(&mut entries, &mut self.entries);
        assert(entries_view(entries@) == before);
        let replaced = if at < entries.len() && same_text(entries[at].0.as_str(), name.as_str()) {
            let (_, was) = entries.remove(at);
            Some(was)
        } else {
            None
        };
        entries.insert(at, (name, value));
        assert(entries_view(entries@) =~= with_field(before, name@, value@));
        proof {
            lemma_entries_in_order(entries@);
        }
        self.entries = entries;
        replaced
    }

    /// Takes the value under `name` away.
    pub fn remove(&mut self, name: &str) -> (removed: Option<Value>)
        ensures
            final(self)@ == without_field(old(self)@, name@),
            ordered(final(self)@),
            field_of(final(self)@, name@) is None,
            forall|other: Seq<char>|
                other != name@ ==> #[trigger] field_of(final(self)@, other) == field_of(
                    old(self)@,
                    other,
                ),
            match removed {
                Some(was) => field_of(old(self)@, name@) == Some(was@),
                None => field_of(old(self)@, name@) is None,
            },
    {
        proof {
            use_type_invariant(&*self);
        }
        let ghost before = self@;
        let at: usize = self.find(name);
        proof {
            lemma_with_field_at(before, name@, ValueView::Null, at as int);
            lemma_without_field(before, name@);
        }
        if at < self.entries.len() && same_text(self.entries[at].0.as_str(), name) {
            let mut entries: Vec<(String, Value)> = Vec::new();
            std::mem::swap(&mut entries, &mut self.entries);
            assert(entries_view(entries@) == before);
            let (_, was) = entries.remove(at);
            assert(entries_view(entries@) =~= without_field(before, name@));
            proof {
                lemma_entries_in_order(entries@);
            }
            self.entries = entries;
            Some(was)
        } else {
            None
        }
    }

    /// The fields that some named values make, a later value in place of an earlier one.
    #[must_use]
    pub fn of(entries: Vec<(String, Value)>) -> (fields: Self)
        ensures
            fields@ == with_fields(Seq::empty(), entries_view(entries@)),
            ordered(fields@),
    {
        let mut fields = Fields::new();
        let ghost all = entries_view(entries@);
        assert(all.skip(0) =~= all);
        for entry in it: entries
            invariant
                it.seq() == entries@,
                all == entries_view(entries@),
                with_fields(fields@, all.skip(it.index() as int)) == with_fields(Seq::empty(), all),
                ordered(fields@),
        {
            let ghost rest = all.skip(it.index() as int);
            assert(rest[0] == (entry.0@, entry.1@));
            assert(rest.drop_first() =~= all.skip(it.index() + 1));
            let (name, value) = entry;
            fields.insert(name, value);
        }
        assert(all.skip(all.len() as int).len() == 0);
        fields
    }
}

/// Names in order are in order where they are held.
proof fn lemma_entries_in_order(entries: Seq<(String, Value)>)
    requires
        ordered(entries_view(entries)),
    ensures
        forall|i: int, j: int|
            0 <= i < j < entries.len() ==> text_before(
                (#[trigger] entries[i]).0@,
                (#[trigger] entries[j]).0@,
            ),
{
    let view = entries_view(entries);
    assert forall|i: int, j: int| 0 <= i < j < entries.len() implies text_before(
        (#[trigger] entries[i]).0@,
        (#[trigger] entries[j]).0@,
    ) by {
        assert(text_before(view[i].0, view[j].0));
    }
}

impl Value {
    /// The fields of an object, or the value as it was where it is none.
    pub(crate) fn into_fields(self) -> (fields: Result<Fields, Value>)
        ensures
            match fields {
                Ok(fields) => self@ == ValueView::Object(fields@) && ordered(fields@),
                Err(value) => value@ == self@ && !(self@ is Object),
            },
    {
        match self {
            Value::Object(fields) => {
                proof {
                    use_type_invariant(&fields);
                }
                Ok(fields)
            },
            other => Err(other),
        }
    }
}

impl RecordRef {
    /// A reference to `id` in `table`.
    #[must_use]
    pub fn new(table: u32, id: RecordId) -> (reference: Self)
        ensures
            reference == (RecordRef { table, id }),
    {
        RecordRef { table, id }
    }
}

impl ValueRange {
    /// A span from `start` to `end`.
    #[must_use]
    pub fn new(start: Bound<Value>, end: Bound<Value>) -> (range: Self)
        ensures
            range == (ValueRange { start, end }),
    {
        ValueRange { start, end }
    }
}

impl Default for Fields {
    fn default() -> (fields: Self)
        ensures
            fields@ == Seq::<(Seq<char>, ValueView)>::empty(),
    {
        Fields::new()
    }
}

impl Clone for RecordId {
    fn clone(&self) -> (copy: Self)
        ensures
            copy@ == self@,
    {
        match self {
            RecordId::Int(value) => RecordId::Int(*value),
            RecordId::Text(text) => RecordId::Text(text.clone()),
            RecordId::Uuid(bytes) => RecordId::Uuid(*bytes),
            RecordId::Bytes(bytes) => {
                let copy = bytes.clone();
                assert(copy@ =~= bytes@);
                RecordId::Bytes(copy)
            },
        }
    }
}

impl Clone for RecordRef {
    fn clone(&self) -> (copy: Self)
        ensures
            copy@ == self@,
    {
        RecordRef { table: self.table, id: self.id.clone() }
    }
}

impl Clone for Value {
    fn clone(&self) -> (copy: Self)
        ensures
            copy@ == self@,
    {
        copy_value(self)
    }
}

impl<T: Clone> Clone for Bound<T> {
    fn clone(&self) -> (copy: Self)
        ensures
            match (*self, copy) {
                (Bound::Included(end), Bound::Included(other)) => cloned(end, other),
                (Bound::Excluded(end), Bound::Excluded(other)) => cloned(end, other),
                (Bound::Unbounded, Bound::Unbounded) => true,
                _ => false,
            },
    {
        match self {
            Bound::Included(end) => Bound::Included(end.clone()),
            Bound::Excluded(end) => Bound::Excluded(end.clone()),
            Bound::Unbounded => Bound::Unbounded,
        }
    }
}

impl Clone for Fields {
    fn clone(&self) -> (copy: Self)
        ensures
            copy@ == self@,
    {
        copy_fields(self)
    }
}

impl Clone for ValueRange {
    fn clone(&self) -> (copy: Self)
        ensures
            copy@ == self@,
    {
        ValueRange { start: copy_bound(&self.start), end: copy_bound(&self.end) }
    }
}

fn copy_value(value: &Value) -> (copy: Value)
    ensures
        copy@ == value@,
    decreases value,
{
    match value {
        Value::Absent => Value::Absent,
        Value::Null => Value::Null,
        Value::Bool(flag) => Value::Bool(*flag),
        Value::Number(number) => Value::Number(*number),
        Value::String(text) => Value::String(text.clone()),
        Value::Bytes(bytes) => {
            let copy = bytes.clone();
            assert(copy@ =~= bytes@);
            Value::Bytes(copy)
        },
        Value::Duration { seconds, nanos } => Value::Duration { seconds: *seconds, nanos: *nanos },
        Value::Datetime { seconds, nanos } => Value::Datetime { seconds: *seconds, nanos: *nanos },
        Value::Uuid(bytes) => Value::Uuid(*bytes),
        Value::Table(table) => Value::Table(*table),
        Value::Record(reference) => Value::Record(reference.clone()),
        Value::Array(items) => Value::Array(copy_values(items)),
        Value::Object(fields) => Value::Object(copy_fields(fields)),
        Value::Range(range) => {
            let start = copy_bound(&range.start);
            let end = copy_bound(&range.end);
            Value::Range(Box::new(ValueRange { start, end }))
        },
        Value::SetOf(items) => Value::SetOf(copy_values(items)),
        Value::Geometry(shape) => Value::Geometry(shape.clone()),
        Value::Regex(pattern) => Value::Regex(pattern.clone()),
    }
}

fn copy_bound(bound: &Bound<Value>) -> (copy: Bound<Value>)
    ensures
        bound_view(copy) == bound_view(*bound),
    decreases bound,
{
    match bound {
        Bound::Included(value) => Bound::Included(copy_value(value)),
        Bound::Excluded(value) => Bound::Excluded(copy_value(value)),
        Bound::Unbounded => Bound::Unbounded,
    }
}

fn copy_values(items: &Vec<Value>) -> (copy: Vec<Value>)
    ensures
        values_view(copy@) == values_view(items@),
    decreases items,
{
    let mut copy: Vec<Value> = Vec::new();
    let mut at: usize = 0;
    while at < items.len()
        invariant
            at <= items@.len(),
            copy@.len() == at,
            forall|i: int| 0 <= i < at ==> (#[trigger] copy@[i])@ == items@[i]@,
        decreases items.len() - at,
    {
        copy.push(copy_value(&items[at]));
        at = at + 1;
    }
    assert(values_view(copy@) =~= values_view(items@));
    copy
}

fn copy_fields(fields: &Fields) -> (copy: Fields)
    ensures
        copy@ == fields@,
    decreases fields,
{
    proof {
        use_type_invariant(fields);
    }
    let mut entries: Vec<(String, Value)> = Vec::new();
    let mut at: usize = 0;
    while at < fields.entries.len()
        invariant
            at <= fields.entries@.len(),
            entries@.len() == at,
            forall|i: int|
                0 <= i < at ==> (#[trigger] entries@[i]).0@ == fields.entries@[i].0@
                    && entries@[i].1@ == fields.entries@[i].1@,
        decreases fields.entries.len() - at,
    {
        let entry = &fields.entries[at];
        entries.push((entry.0.clone(), copy_value(&entry.1)));
        at = at + 1;
    }
    let copy = Fields { entries };
    assert(copy@ =~= fields@);
    copy
}

impl From<i64> for Value {
    fn from(value: i64) -> (made: Self) {
        Value::Number(Number::Integer(value))
    }
}

impl vstd::std_specs::convert::FromSpecImpl<i64> for Value {
    open spec fn obeys_from_spec() -> bool {
        true
    }

    open spec fn from_spec(value: i64) -> Self {
        Value::Number(Number::Integer(value))
    }
}

impl From<Double> for Value {
    fn from(value: Double) -> (made: Self) {
        Value::Number(Number::Float(value))
    }
}

impl vstd::std_specs::convert::FromSpecImpl<Double> for Value {
    open spec fn obeys_from_spec() -> bool {
        true
    }

    open spec fn from_spec(value: Double) -> Self {
        Value::Number(Number::Float(value))
    }
}

impl From<bool> for Value {
    fn from(value: bool) -> (made: Self) {
        Value::Bool(value)
    }
}

impl vstd::std_specs::convert::FromSpecImpl<bool> for Value {
    open spec fn obeys_from_spec() -> bool {
        true
    }

    open spec fn from_spec(value: bool) -> Self {
        Value::Bool(value)
    }
}

impl From<String> for Value {
    fn from(value: String) -> (made: Self) {
        Value::String(value)
    }
}

impl vstd::std_specs::convert::FromSpecImpl<String> for Value {
    open spec fn obeys_from_spec() -> bool {
        true
    }

    open spec fn from_spec(value: String) -> Self {
        Value::String(value)
    }
}

impl From<&str> for Value {
    fn from(value: &str) -> (made: Self)
        ensures
            made@ == ValueView::String(value@),
    {
        Value::String(value.to_owned())
    }
}

impl vstd::std_specs::convert::FromSpecImpl<&str> for Value {
    open spec fn obeys_from_spec() -> bool {
        false
    }

    open spec fn from_spec(value: &str) -> Self {
        arbitrary()
    }
}

impl From<Vec<u8>> for Value {
    fn from(value: Vec<u8>) -> (made: Self) {
        Value::Bytes(value)
    }
}

impl vstd::std_specs::convert::FromSpecImpl<Vec<u8>> for Value {
    open spec fn obeys_from_spec() -> bool {
        true
    }

    open spec fn from_spec(value: Vec<u8>) -> Self {
        Value::Bytes(value)
    }
}

/// What stands for a value where one is bound or set: a value, or what one is made from.
pub trait IntoValue: Sized {
    /// What the value holds.
    spec fn value(&self) -> ValueView;

    /// The value itself.
    fn into_value(self) -> (value: Value)
        ensures
            value@ == self.value(),
    ;
}

impl IntoValue for Value {
    open spec fn value(&self) -> ValueView {
        self@
    }

    fn into_value(self) -> (value: Value) {
        self
    }
}

impl IntoValue for i64 {
    open spec fn value(&self) -> ValueView {
        ValueView::Number(Number::Integer(*self))
    }

    fn into_value(self) -> (value: Value) {
        Value::from(self)
    }
}

impl IntoValue for Double {
    open spec fn value(&self) -> ValueView {
        ValueView::Number(Number::Float(*self))
    }

    fn into_value(self) -> (value: Value) {
        Value::from(self)
    }
}

impl IntoValue for bool {
    open spec fn value(&self) -> ValueView {
        ValueView::Bool(*self)
    }

    fn into_value(self) -> (value: Value) {
        Value::from(self)
    }
}

impl IntoValue for String {
    open spec fn value(&self) -> ValueView {
        ValueView::String(self@)
    }

    fn into_value(self) -> (value: Value) {
        Value::from(self)
    }
}

impl<'a> IntoValue for &'a str {
    open spec fn value(&self) -> ValueView {
        ValueView::String(self@)
    }

    fn into_value(self) -> (value: Value) {
        Value::from(self)
    }
}

impl IntoValue for Vec<u8> {
    open spec fn value(&self) -> ValueView {
        ValueView::Bytes(self@)
    }

    fn into_value(self) -> (value: Value) {
        Value::from(self)
    }
}

/// What is seen of a value is what it holds: a value of the same type, with the same parts in the
/// same places, and value for value what an array, a set, an object or a span holds.
pub proof fn law_values_are_seen_as_they_are(value: Value)
    ensures
        match value {
            Value::Absent => value@ == ValueView::Absent,
            Value::Null => value@ == ValueView::Null,
            Value::Bool(flag) => value@ == ValueView::Bool(flag),
            Value::Number(number) => value@ == ValueView::Number(number),
            Value::String(text) => value@ == ValueView::String(text@),
            Value::Bytes(bytes) => value@ == ValueView::Bytes(bytes@),
            Value::Duration { seconds, nanos } => value@ == (ValueView::Duration {
                seconds,
                nanos,
            }),
            Value::Datetime { seconds, nanos } => value@ == (ValueView::Datetime {
                seconds,
                nanos,
            }),
            Value::Uuid(bytes) => value@ == ValueView::Uuid(bytes@),
            Value::Table(table) => value@ == ValueView::Table(table),
            Value::Record(reference) => value@ matches ValueView::Record(held) && held.table
                == reference.table && match reference.id {
                RecordId::Int(id) => held.id == RecordIdView::Int(id),
                RecordId::Text(id) => held.id == RecordIdView::Text(id@),
                RecordId::Uuid(id) => held.id == RecordIdView::Uuid(id@),
                RecordId::Bytes(id) => held.id == RecordIdView::Bytes(id@),
            },
            Value::Array(items) => value@ matches ValueView::Array(held) && held.len()
                == items@.len() && forall|i: int|
                0 <= i < held.len() ==> #[trigger] held[i] == items@[i]@,
            Value::SetOf(items) => value@ matches ValueView::SetOf(held) && held.len()
                == items@.len() && forall|i: int|
                0 <= i < held.len() ==> #[trigger] held[i] == items@[i]@,
            Value::Object(fields) => value@ == ValueView::Object(fields@),
            Value::Range(range) => value@ matches ValueView::Range(held) && bound_is_seen(
                range.start,
                held.start,
            ) && bound_is_seen(range.end, held.end),
            Value::Geometry(shape) => value@ == ValueView::Geometry(shape@),
            Value::Regex(pattern) => value@ == ValueView::Regex(pattern@),
        },
{
    match value {
        Value::Range(range) => {
            let held = range_view(*range);
            assert(value@ == ValueView::Range(Box::new(held)));
            assert(held.start == bound_view(range.start));
            assert(held.end == bound_view(range.end));
        },
        Value::Object(fields) => {
            assert(value@ == ValueView::Object(fields_view(fields)));
        },
        _ => {},
    }
}

/// Whether what is seen of one end of a span is that end.
pub open spec fn bound_is_seen(bound: Bound<Value>, held: Bound<ValueView>) -> bool {
    match bound {
        Bound::Included(value) => held == Bound::Included(value@),
        Bound::Excluded(value) => held == Bound::Excluded(value@),
        Bound::Unbounded => held == Bound::<ValueView>::Unbounded,
    }
}

/// What is seen of named values is each name and each value, in the same order.
pub proof fn law_entries_are_seen_as_they_are(entries: Seq<(String, Value)>, at: int)
    requires
        0 <= at < entries.len(),
    ensures
        entries_view(entries).len() == entries.len(),
        entries_view(entries)[at] == (entries[at].0@, entries[at].1@),
{
}

/// What is given as a value is held as it is: a whole number as a whole number, a double as a
/// double, a truth value, text and bytes as what they are.
pub proof fn law_given_values_are_held_as_they_are(
    value: Value,
    integer: i64,
    double: Double,
    flag: bool,
    text: String,
    borrowed: &str,
    bytes: Vec<u8>,
)
    ensures
        value.value() == value@,
        integer.value() == ValueView::Number(Number::Integer(integer)),
        double.value() == ValueView::Number(Number::Float(double)),
        flag.value() == ValueView::Bool(flag),
        text.value() == ValueView::String(text@),
        borrowed.value() == ValueView::String(borrowed@),
        bytes.value() == ValueView::Bytes(bytes@),
{
}

/// Fields give back under each name what was last put there, forget what is taken away, and keep
/// everything else; putting and taking hand back what was there before.
pub proof fn law_fields_give_back_what_was_put(
    fields: &mut Fields,
    name: String,
    value: Value,
    replaced: Option<Value>,
    other: Seq<char>,
)
    requires
        call_ensures(Fields::insert, (fields, name, value), replaced),
    ensures
        field_of(final(fields)@, name@) == Some(value@),
        other != name@ ==> field_of(final(fields)@, other) == field_of(old(fields)@, other),
        match replaced {
            Some(was) => field_of(old(fields)@, name@) == Some(was@),
            None => field_of(old(fields)@, name@) is None,
        },
{
}

/// Taking a field away hands it over and leaves every other.
pub proof fn law_fields_forget_what_is_taken(
    fields: &mut Fields,
    name: &str,
    removed: Option<Value>,
    other: Seq<char>,
)
    requires
        call_ensures(Fields::remove, (fields, name), removed),
    ensures
        field_of(final(fields)@, name@) is None,
        other != name@ ==> field_of(final(fields)@, other) == field_of(old(fields)@, other),
        match removed {
            Some(was) => field_of(old(fields)@, name@) == Some(was@),
            None => field_of(old(fields)@, name@) is None,
        },
{
}

/// What is looked up under a name is what stands there, counted fields are all there are, and there
/// are none to start with.
pub proof fn law_fields_are_looked_up(
    fields: &Fields,
    name: &str,
    value: Option<&Value>,
    len: usize,
    empty: bool,
    fresh: Fields,
)
    requires
        call_ensures(Fields::get, (fields, name), value),
        call_ensures(Fields::len, (fields,), len),
        call_ensures(Fields::is_empty, (fields,), empty),
        call_ensures(Fields::new, (), fresh),
    ensures
        value is Some <==> exists|i: int|
            0 <= i < fields@.len() && (#[trigger] fields@[i]).0 == name@,
        value matches Some(value) ==> fields@.contains((name@, value@)),
        len == fields@.len(),
        empty <==> len == 0,
        fresh@.len() == 0,
{
    if let Some(held) = value {
        let at = place_of(fields@, name@);
        assert(holds_name(fields@, name@));
        assert(fields@[at] == (name@, held@));
    }
    if exists|i: int| 0 <= i < fields@.len() && (#[trigger] fields@[i]).0 == name@ {
        assert(holds_name(fields@, name@));
    }
}

/// What is turned into a value is held as it is.
pub proof fn law_values_are_made_of_what_is_given(
    integer: i64,
    double: Double,
    flag: bool,
    text: String,
    borrowed: &str,
    bytes: Vec<u8>,
    made: Value,
)
    ensures
        call_ensures(<Value as From<i64>>::from, (integer,), made) ==> made@ == ValueView::Number(
            Number::Integer(integer),
        ),
        call_ensures(<Value as From<Double>>::from, (double,), made) ==> made@ == ValueView::Number(
            Number::Float(double),
        ),
        call_ensures(<Value as From<bool>>::from, (flag,), made) ==> made@ == ValueView::Bool(flag),
        call_ensures(<Value as From<String>>::from, (text,), made) ==> made@ == ValueView::String(
            text@,
        ),
        call_ensures(<Value as From<&str>>::from, (borrowed,), made) ==> made@
            == ValueView::String(borrowed@),
        call_ensures(<Value as From<Vec<u8>>>::from, (bytes,), made) ==> made@ == ValueView::Bytes(
            bytes@,
        ),
{
}

/// A reference and a range hold what they are made of, each in its place.
pub proof fn law_references_and_ranges_hold_their_parts(
    table: u32,
    id: RecordId,
    reference: RecordRef,
    start: Bound<Value>,
    end: Bound<Value>,
    range: ValueRange,
)
    requires
        call_ensures(RecordRef::new, (table, id), reference),
        call_ensures(ValueRange::new, (start, end), range),
    ensures
        reference.table == table,
        reference.id == id,
        range.start == start,
        range.end == end,
{
}

}
