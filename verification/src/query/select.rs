//! Reading.

use vstd::prelude::*;
use vstd::string::StringExecFns;

use crate::query::{
    bound, check_name, check_span, name_fault, span_fault, Answerer, Binder, BuildError,
    BuildErrorView, Query, QueryView,
};
use crate::query::filter::{filter_fault, filter_text, filter_values, Filter, FilterView};
use crate::text::{decimal, decimal_text, join, joined, IntoText};
use crate::value::ValueView;

verus! {

/// Which way an ordering runs.
#[derive(Debug, Clone, Copy, PartialEq, Eq)]
pub enum Order {
    /// Smallest first. The node's default, and written out anyway so the statement says what it
    /// does.
    Ascending,
    /// Largest first.
    Descending,
}

impl Order {
    /// How a statement spells it.
    pub open spec fn spelling(self) -> Seq<char> {
        match self {
            Order::Ascending => "ASC"@,
            Order::Descending => "DESC"@,
        }
    }

    fn spelled(self) -> (text: &'static str)
        ensures
            text@ == self.spelling(),
    {
        match self {
            Order::Ascending => "ASC",
            Order::Descending => "DESC",
        }
    }
}

/// One entry of a projection: a bare field name, or a window onto a long text field.
///
/// An enum rather than two parallel lists because the items are rendered in the order they were
/// named, and two lists cannot express one order.
#[derive(Debug, Clone)]
enum Projection {
    Field(String),
    Lines { field: String, start: u64, count: u64 },
}

/// One entry of a projection.
#[verifier::ext_equal]
pub enum ProjectionView {
    /// A field.
    Field(Seq<char>),
    /// So many lines of a field.
    Lines {
        /// The field.
        field: Seq<char>,
        /// The first line, counted from zero.
        start: u64,
        /// How many lines.
        count: u64,
    },
}

impl ProjectionView {
    /// The field this item reads.
    pub open spec fn field(self) -> Seq<char> {
        match self {
            ProjectionView::Field(name) => name,
            ProjectionView::Lines { field, .. } => field,
        }
    }

    /// The item as a statement spells it. A window comes back under its field's own name.
    pub open spec fn text(self) -> Seq<char> {
        match self {
            ProjectionView::Field(name) => name,
            ProjectionView::Lines { field, start, count } => "string::lines("@ + field + ", "@
                + decimal(start as nat) + ", "@ + decimal(count as nat) + ") AS "@ + field,
        }
    }
}

impl View for Projection {
    type V = ProjectionView;

    closed spec fn view(&self) -> ProjectionView {
        match self {
            Projection::Field(name) => ProjectionView::Field(name@),
            Projection::Lines { field, start, count } => ProjectionView::Lines {
                field: field@,
                start: *start,
                count: *count,
            },
        }
    }
}

impl Projection {
    /// The field this item reads, which is name-checked either way.
    fn field(&self) -> (name: &String)
        ensures
            name@ == self@.field(),
    {
        match self {
            Projection::Field(name) => name,
            Projection::Lines { field, .. } => field,
        }
    }

    fn render(&self) -> (text: String)
        ensures
            text@ == self@.text(),
    {
        match self {
            Projection::Field(name) => name.clone(),
            Projection::Lines { field, start, count } => "string::lines(".to_owned()
                .concat(field.as_str())
                .concat(", ")
                .concat(decimal_text(*start).as_str())
                .concat(", ")
                .concat(decimal_text(*count).as_str())
                .concat(") AS ")
                .concat(field.as_str()),
        }
    }
}

/// A read.
#[derive(Debug, Clone)]
pub struct Select {
    source: String,
    projection: Vec<Projection>,
    filter: Option<Filter>,
    order: Vec<(String, Order)>,
    start: Option<u64>,
    limit: Option<u64>,
    staleness: Option<String>,
    answered_by: Option<Answerer>,
}

/// What a read asks for.
#[verifier::ext_equal]
pub struct SelectView {
    /// The table.
    pub source: Seq<char>,
    /// What to return, everything where nothing is named.
    pub projection: Seq<ProjectionView>,
    /// Which records.
    pub filter: Option<FilterView>,
    /// What to order by, each in turn.
    pub order: Seq<(Seq<char>, Order)>,
    /// How many records to skip.
    pub start: Option<u64>,
    /// How many records to return at most.
    pub limit: Option<u64>,
    /// How far behind the node that answers may be.
    pub staleness: Option<Seq<char>>,
    /// Who is to answer.
    pub answered_by: Option<Answerer>,
}

spec fn projections_view(items: Seq<Projection>) -> Seq<ProjectionView> {
    Seq::new(items.len(), |i: int| items[i]@)
}

spec fn orders_view(items: Seq<(String, Order)>) -> Seq<(Seq<char>, Order)> {
    Seq::new(items.len(), |i: int| (items[i].0@, items[i].1))
}

impl View for Select {
    type V = SelectView;

    closed spec fn view(&self) -> SelectView {
        SelectView {
            source: self.source@,
            projection: projections_view(self.projection@),
            filter: match self.filter {
                Some(filter) => Some(filter@),
                None => None,
            },
            order: orders_view(self.order@),
            start: self.start,
            limit: self.limit,
            staleness: match self.staleness {
                Some(bound) => Some(bound@),
                None => None,
            },
            answered_by: self.answered_by,
        }
    }
}

/// Each item of a projection as a statement spells it.
pub open spec fn projection_parts(items: Seq<ProjectionView>) -> Seq<Seq<char>> {
    Seq::new(items.len(), |i: int| items[i].text())
}

/// A projection as a statement spells it.
pub open spec fn projection_text(items: Seq<ProjectionView>) -> Seq<char> {
    if items.len() == 0 {
        "*"@
    } else {
        joined(projection_parts(items))
    }
}

/// Each ordering as a statement spells it.
pub open spec fn order_parts(items: Seq<(Seq<char>, Order)>) -> Seq<Seq<char>> {
    Seq::new(items.len(), |i: int| items[i].0 + " "@ + items[i].1.spelling())
}

/// The clause that orders, where there is one.
pub open spec fn order_text(items: Seq<(Seq<char>, Order)>) -> Seq<char> {
    if items.len() == 0 {
        seq![]
    } else {
        " ORDER BY "@ + joined(order_parts(items))
    }
}

/// A clause that ends in a count, where there is one.
///
/// A count is a literal, not a value: it is part of the statement's shape and cannot be supplied
/// by a parameter.
pub open spec fn count_text(clause: Seq<char>, count: Option<u64>) -> Seq<char> {
    match count {
        Some(count) => clause + decimal(count as nat),
        None => seq![],
    }
}

/// The clause that filters, where there is one.
pub open spec fn where_text(filter: Option<FilterView>) -> Seq<char> {
    match filter {
        Some(filter) => " WHERE "@ + filter_text(filter, 0),
        None => seq![],
    }
}

/// The clause that bounds the staleness, where there is one.
pub open spec fn staleness_text(staleness: Option<Seq<char>>) -> Seq<char> {
    match staleness {
        Some(span) => " STALENESS "@ + span,
        None => seq![],
    }
}

/// The clause that says who is to answer, where there is one.
pub open spec fn answered_by_text(answerer: Option<Answerer>) -> Seq<char> {
    match answerer {
        Some(answerer) => " ANSWERED BY "@ + answerer.word(),
        None => seq![],
    }
}

/// A read as a statement spells it. The last two clauses come after `LIMIT`, and `STALENESS`
/// before `ANSWERED BY`, because a node's parser accepts no other sequence.
pub open spec fn select_script(select: SelectView) -> Seq<char> {
    "SELECT "@ + projection_text(select.projection) + " FROM "@ + select.source + where_text(
        select.filter,
    ) + order_text(select.order) + count_text(" START "@, select.start) + count_text(
        " LIMIT "@,
        select.limit,
    ) + staleness_text(select.staleness) + answered_by_text(select.answered_by) + ";"@
}

/// The first item of a projection whose field is not a name.
pub open spec fn projection_fault(items: Seq<ProjectionView>) -> Option<BuildErrorView>
    decreases items.len(),
{
    if items.len() == 0 {
        None
    } else {
        match projection_fault(items.drop_last()) {
            Some(fault) => Some(fault),
            None => name_fault("a field"@, items.last().field()),
        }
    }
}

/// The first ordering whose field is not a name.
pub open spec fn order_fault(items: Seq<(Seq<char>, Order)>) -> Option<BuildErrorView>
    decreases items.len(),
{
    if items.len() == 0 {
        None
    } else {
        match order_fault(items.drop_last()) {
            Some(fault) => Some(fault),
            None => name_fault("a field"@, items.last().0),
        }
    }
}

/// Why a read cannot be rendered, where it cannot: the first thing interpolated that may not be.
pub open spec fn select_fault(select: SelectView) -> Option<BuildErrorView> {
    match name_fault("a table"@, select.source) {
        Some(fault) => Some(fault),
        None => match projection_fault(select.projection) {
            Some(fault) => Some(fault),
            None => match (match select.filter {
                Some(filter) => filter_fault(filter),
                None => None,
            }) {
                Some(fault) => Some(fault),
                None => match order_fault(select.order) {
                    Some(fault) => Some(fault),
                    None => match select.staleness {
                        Some(span) => span_fault(span),
                        None => None,
                    },
                },
            },
        },
    }
}

/// The values a read binds.
pub open spec fn select_values(select: SelectView) -> Seq<ValueView> {
    match select.filter {
        Some(filter) => filter_values(filter),
        None => seq![],
    }
}

/// The statement that a read is, or why it cannot be rendered.
pub open spec fn select_query(select: SelectView) -> Result<QueryView, BuildErrorView> {
    match select_fault(select) {
        Some(fault) => Err(fault),
        None => Ok(
            QueryView { script: select_script(select), parameters: bound(select_values(select)) },
        ),
    }
}

impl Select {
    /// Read from a table.
    #[must_use]
    pub fn from(table: impl IntoText) -> (select: Self)
        ensures
            select@ == (SelectView {
                source: table.text(),
                projection: Seq::empty(),
                filter: None,
                order: Seq::empty(),
                start: None,
                limit: None,
                staleness: None,
                answered_by: None,
            }),
    {
        let select = Select {
            source: table.into_text(),
            projection: Vec::new(),
            filter: None,
            order: Vec::new(),
            start: None,
            limit: None,
            staleness: None,
            answered_by: None,
        };
        assert(select@.projection =~= Seq::empty());
        assert(select@.order =~= Seq::empty());
        select
    }

    /// Name a field to return.
    ///
    /// With none named the statement projects everything.
    #[must_use]
    pub fn field(self, name: impl IntoText) -> (select: Self)
        ensures
            select@ == (SelectView {
                projection: self@.projection.push(ProjectionView::Field(name.text())),
                ..self@
            }),
    {
        let mut select = self;
        select.projection.push(Projection::Field(name.into_text()));
        assert(select@.projection =~= self@.projection.push(ProjectionView::Field(name.text())));
        select
    }

    /// Return `count` lines of a text field, starting at line `start`.
    ///
    /// For reading a long body a piece at a time rather than whole. Lines are counted from zero,
    /// and the field comes back under its own name, so the mapping that reads it does not change
    /// with the window. The two counts are part of the statement's text rather than parameters.
    #[must_use]
    pub fn field_lines(self, name: impl IntoText, start: u64, count: u64) -> (select: Self)
        ensures
            select@ == (SelectView {
                projection: self@.projection.push(
                    (ProjectionView::Lines { field: name.text(), start, count }),
                ),
                ..self@
            }),
    {
        let mut select = self;
        select.projection.push(Projection::Lines { field: name.into_text(), start, count });
        assert(select@.projection =~= self@.projection.push(
            ProjectionView::Lines { field: name.text(), start, count },
        ));
        select
    }

    /// Keep only records the condition holds for.
    ///
    /// Calling this twice replaces the condition rather than combining: use [`Filter::and`] to say
    /// what you mean.
    #[must_use]
    pub fn filter(self, filter: Filter) -> (select: Self)
        ensures
            select@ == (SelectView { filter: Some(filter@), ..self@ }),
    {
        let mut select = self;
        select.filter = Some(filter);
        select
    }

    /// Order by a field. Called more than once, orders by each in turn.
    #[must_use]
    pub fn order_by(self, name: impl IntoText, order: Order) -> (select: Self)
        ensures
            select@ == (SelectView { order: self@.order.push((name.text(), order)), ..self@ }),
    {
        let mut select = self;
        select.order.push((name.into_text(), order));
        assert(select@.order =~= self@.order.push((name.text(), order)));
        select
    }

    /// Skip this many records.
    #[must_use]
    pub fn start(self, at: u64) -> (select: Self)
        ensures
            select@ == (SelectView { start: Some(at), ..self@ }),
    {
        let mut select = self;
        select.start = Some(at);
        select
    }

    /// Return at most this many.
    #[must_use]
    pub fn limit(self, count: u64) -> (select: Self)
        ensures
            select@ == (SelectView { limit: Some(count), ..self@ }),
    {
        let mut select = self;
        select.limit = Some(count);
        select
    }

    /// How far behind the node answering this read may be: `"30s"`, `"1m30s"`.
    ///
    /// It says which nodes may answer at all, rather than labelling an answer as stale. A read no
    /// node can satisfy is refused by the node.
    ///
    /// Text rather than a duration because the text is the contract: `1m30s` and `90s` are the
    /// same length and different statements.
    #[must_use]
    pub fn staleness(self, bound: impl IntoText) -> (select: Self)
        ensures
            select@ == (SelectView { staleness: Some(bound.text()), ..self@ }),
    {
        let mut select = self;
        select.staleness = Some(bound.into_text());
        select
    }

    /// Where the answer must come from.
    ///
    /// Not a tighter [`staleness`](Self::staleness): no freshness bound expresses that an answer
    /// must come from where writes are decided.
    #[must_use]
    pub fn answered_by(self, answerer: Answerer) -> (select: Self)
        ensures
            select@ == (SelectView { answered_by: Some(answerer), ..self@ }),
    {
        let mut select = self;
        select.answered_by = Some(answerer);
        select
    }

    /// Render the statement and its parameters.
    pub fn build(&self) -> (built: Result<Query, BuildError>)
        ensures
            match built {
                Ok(query) => select_query(self@) == Ok::<QueryView, BuildErrorView>(query@),
                Err(error) => select_query(self@) == Err::<QueryView, BuildErrorView>(error@),
            },
    {
        check_name("a table", self.source.as_str())?;
        let mut binder = Binder::new();
        let projection = self.render_projection()?;
        let mut script = "SELECT ".to_owned()
            .concat(projection.as_str())
            .concat(" FROM ")
            .concat(self.source.as_str());
        let ghost head = script@;
        if let Some(filter) = &self.filter {
            let rendered = filter.render(&mut binder)?;
            script.append(" WHERE ");
            script.append(rendered.as_str());
        }
        assert(script@ =~= head + where_text(self@.filter));
        let ghost filtered = script@;
        let ordering = self.render_order()?;
        script.append(ordering.as_str());
        put_count(&mut script, " START ", self.start);
        put_count(&mut script, " LIMIT ", self.limit);
        let ghost limited = script@;
        if let Some(bound) = &self.staleness {
            check_span(bound.as_str())?;
            script.append(" STALENESS ");
            script.append(bound.as_str());
        }
        assert(script@ =~= limited + staleness_text(self@.staleness));
        let ghost bounded = script@;
        if let Some(answerer) = self.answered_by {
            script.append(" ANSWERED BY ");
            script.append(answerer.spelled());
        }
        assert(script@ =~= bounded + answered_by_text(self@.answered_by));
        script.append(";");
        assert(script@ =~= select_script(self@));
        assert(binder.values() =~= select_values(self@));
        Ok(Query { script, parameters: binder.finish() })
    }

    fn render_projection(&self) -> (rendered: Result<String, BuildError>)
        ensures
            match rendered {
                Ok(text) => projection_fault(self@.projection) is None && text@ == projection_text(
                    self@.projection,
                ),
                Err(error) => projection_fault(self@.projection) == Some(error@),
            },
    {
        if self.projection.len() == 0 {
            return Ok("*".to_owned());
        }
        let ghost items = self@.projection;
        let mut text = String::new();
        let mut at: usize = 0;
        assert(items.take(0) =~= Seq::empty());
        assert(projection_parts(items.take(0)) =~= Seq::empty());
        assert(text@ =~= joined(Seq::empty()));
        while at < self.projection.len()
            invariant
                at <= self.projection@.len(),
                items == projections_view(self.projection@),
                projection_fault(items.take(at as int)) is None,
                text@ == joined(projection_parts(items.take(at as int))),
                items == self@.projection,
            decreases self.projection.len() - at,
        {
            let item = &self.projection[at];
            let ghost before = items.take(at as int);
            let ghost now = items.take(at + 1);
            assert(now.drop_last() =~= before);
            assert(now.last() == item@);
            match check_name("a field", item.field().as_str()) {
                Ok(_) => {},
                Err(error) => {
                    proof {
                        lemma_projection_fault(items, at + 1);
                    }
                    return Err(error);
                },
            }
            let part = item.render();
            join(&mut text, at, part.as_str(), Ghost(projection_parts(before)));
            assert(projection_parts(before).push(part@) =~= projection_parts(now));
            at = at + 1;
        }
        assert(items.take(at as int) =~= items);
        Ok(text)
    }

    fn render_order(&self) -> (rendered: Result<String, BuildError>)
        ensures
            match rendered {
                Ok(text) => order_fault(self@.order) is None && text@ == order_text(self@.order),
                Err(error) => order_fault(self@.order) == Some(error@),
            },
    {
        if self.order.len() == 0 {
            let text = String::new();
            assert(text@ =~= order_text(self@.order));
            return Ok(text);
        }
        let ghost items = self@.order;
        let mut text = String::new();
        let mut at: usize = 0;
        assert(items.take(0) =~= Seq::empty());
        assert(order_parts(items.take(0)) =~= Seq::empty());
        assert(text@ =~= joined(Seq::empty()));
        while at < self.order.len()
            invariant
                at <= self.order@.len(),
                items == orders_view(self.order@),
                order_fault(items.take(at as int)) is None,
                text@ == joined(order_parts(items.take(at as int))),
                items == self@.order,
            decreases self.order.len() - at,
        {
            let (name, order) = &self.order[at];
            let ghost before = items.take(at as int);
            let ghost now = items.take(at + 1);
            assert(now.drop_last() =~= before);
            assert(now.last() == (name@, *order));
            match check_name("a field", name.as_str()) {
                Ok(_) => {},
                Err(error) => {
                    proof {
                        lemma_order_fault(items, at + 1);
                    }
                    return Err(error);
                },
            }
            let part = name.clone().concat(" ").concat(order.spelled());
            join(&mut text, at, part.as_str(), Ghost(order_parts(before)));
            assert(order_parts(before).push(part@) =~= order_parts(now));
            at = at + 1;
        }
        assert(items.take(at as int) =~= items);
        Ok(" ORDER BY ".to_owned().concat(text.as_str()))
    }
}

fn put_count(script: &mut String, clause: &str, count: Option<u64>)
    ensures
        final(script)@ == old(script)@ + count_text(clause@, count),
{
    if let Some(count) = count {
        script.append(clause);
        script.append(decimal_text(count).as_str());
    }
    assert(script@ =~= old(script)@ + count_text(clause@, count));
}

/// The first fault among some items is the first among them and more.
proof fn lemma_projection_fault(items: Seq<ProjectionView>, at: int)
    requires
        0 <= at <= items.len(),
        projection_fault(items.take(at)) is Some,
    ensures
        projection_fault(items) == projection_fault(items.take(at)),
    decreases items.len(),
{
    if at == items.len() {
        assert(items.take(at) =~= items);
    } else {
        assert(items.drop_last().take(at) =~= items.take(at));
        lemma_projection_fault(items.drop_last(), at);
    }
}

/// The first fault among some orderings is the first among them and more.
proof fn lemma_order_fault(items: Seq<(Seq<char>, Order)>, at: int)
    requires
        0 <= at <= items.len(),
        order_fault(items.take(at)) is Some,
    ensures
        order_fault(items) == order_fault(items.take(at)),
    decreases items.len(),
{
    if at == items.len() {
        assert(items.take(at) =~= items);
    } else {
        assert(items.drop_last().take(at) =~= items.take(at));
        lemma_order_fault(items.drop_last(), at);
    }
}

}
