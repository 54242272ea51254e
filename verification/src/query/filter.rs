//! Conditions, kept deliberately small.
//!
//! Comparison against a bound value, and `AND`/`OR` between them. That is what a filter needs to be
//! useful and it is where a builder stops being simpler than writing the statement out. Anything
//! richer is a script.

use vstd::prelude::*;
use vstd::string::StringExecFns;

use crate::query::{check_name, name_fault, reference, Binder, BuildError, BuildErrorView};
use crate::text::IntoText;
use crate::value::{IntoValue, Value, ValueView};

verus! {

/// Start a condition on a field.
#[must_use]
pub fn field(name: impl IntoText) -> (started: Field)
    ensures
        started@ == name.text(),
{
    Field { name: name.into_text() }
}

/// A field, waiting for a comparison.
#[derive(Debug, Clone)]
pub struct Field {
    name: String,
}

impl View for Field {
    type V = Seq<char>;

    closed spec fn view(&self) -> Seq<char> {
        self.name@
    }
}

/// How two things are compared.
#[derive(Debug, Clone, Copy, PartialEq, Eq)]
pub enum Compare {
    /// The same.
    Equal,
    /// Not the same.
    NotEqual,
    /// Below.
    Less,
    /// Below or the same.
    LessOrEqual,
    /// Above.
    Greater,
    /// Above or the same.
    GreaterOrEqual,
}

impl Compare {
    /// How a statement spells it.
    pub open spec fn spelling(self) -> Seq<char> {
        match self {
            Compare::Equal => "="@,
            Compare::NotEqual => "!="@,
            Compare::Less => "<"@,
            Compare::LessOrEqual => "<="@,
            Compare::Greater => ">"@,
            Compare::GreaterOrEqual => ">="@,
        }
    }

    fn spelled(self) -> (text: &'static str)
        ensures
            text@ == self.spelling(),
    {
        match self {
            Compare::Equal => "=",
            Compare::NotEqual => "!=",
            Compare::Less => "<",
            Compare::LessOrEqual => "<=",
            Compare::Greater => ">",
            Compare::GreaterOrEqual => ">=",
        }
    }
}

impl Field {
    /// Equal to a value.
    #[must_use]
    pub fn eq(self, value: impl IntoValue) -> (filter: Filter)
        ensures
            filter@ == (FilterView::Compare {
                field: self@,
                how: Compare::Equal,
                value: value.value(),
            }),
    {
        self.compare(Compare::Equal, value)
    }

    /// Not equal to a value.
    #[must_use]
    pub fn ne(self, value: impl IntoValue) -> (filter: Filter)
        ensures
            filter@ == (FilterView::Compare {
                field: self@,
                how: Compare::NotEqual,
                value: value.value(),
            }),
    {
        self.compare(Compare::NotEqual, value)
    }

    /// Less than a value.
    #[must_use]
    pub fn lt(self, value: impl IntoValue) -> (filter: Filter)
        ensures
            filter@ == (FilterView::Compare {
                field: self@,
                how: Compare::Less,
                value: value.value(),
            }),
    {
        self.compare(Compare::Less, value)
    }

    /// At most a value.
    #[must_use]
    pub fn le(self, value: impl IntoValue) -> (filter: Filter)
        ensures
            filter@ == (FilterView::Compare {
                field: self@,
                how: Compare::LessOrEqual,
                value: value.value(),
            }),
    {
        self.compare(Compare::LessOrEqual, value)
    }

    /// Greater than a value.
    #[must_use]
    pub fn gt(self, value: impl IntoValue) -> (filter: Filter)
        ensures
            filter@ == (FilterView::Compare {
                field: self@,
                how: Compare::Greater,
                value: value.value(),
            }),
    {
        self.compare(Compare::Greater, value)
    }

    /// At least a value.
    #[must_use]
    pub fn ge(self, value: impl IntoValue) -> (filter: Filter)
        ensures
            filter@ == (FilterView::Compare {
                field: self@,
                how: Compare::GreaterOrEqual,
                value: value.value(),
            }),
    {
        self.compare(Compare::GreaterOrEqual, value)
    }

    fn compare(self, how: Compare, value: impl IntoValue) -> (filter: Filter)
        ensures
            filter@ == (FilterView::Compare { field: self@, how, value: value.value() }),
    {
        Filter(Node::Compare { field: self.name, how, value: value.into_value() })
    }
}

/// One node of the condition tree.
///
/// Private, and the wrapper below is what keeps it so: every condition is built through [`field`]
/// and rendered by the builder that holds it.
#[derive(Debug)]
enum Node {
    Compare { field: String, how: Compare, value: Value },
    And(Box<Node>, Box<Node>),
    Or(Box<Node>, Box<Node>),
}

/// A condition on the records a statement touches.
///
/// Opaque: built with [`field`], combined with [`Filter::and`] and [`Filter::or`], and rendered by
/// the builder that holds it.
#[derive(Debug)]
pub struct Filter(Node);

/// What a condition says.
#[verifier::ext_equal]
pub enum FilterView {
    /// A field against a value.
    Compare {
        /// The field.
        field: Seq<char>,
        /// How they are compared.
        how: Compare,
        /// The value.
        value: ValueView,
    },
    /// Both of two conditions.
    And(Box<FilterView>, Box<FilterView>),
    /// Either of two conditions.
    Or(Box<FilterView>, Box<FilterView>),
}

spec fn node_view(node: Node) -> FilterView
    decreases node,
{
    match node {
        Node::Compare { field, how, value } => FilterView::Compare {
            field: field@,
            how,
            value: value@,
        },
        Node::And(left, right) => FilterView::And(
            Box::new(node_view(*left)),
            Box::new(node_view(*right)),
        ),
        Node::Or(left, right) => FilterView::Or(
            Box::new(node_view(*left)),
            Box::new(node_view(*right)),
        ),
    }
}

impl View for Filter {
    type V = FilterView;

    closed spec fn view(&self) -> FilterView {
        node_view(self.0)
    }
}

/// The values of a condition, from left to right.
pub open spec fn filter_values(filter: FilterView) -> Seq<ValueView>
    decreases filter,
{
    match filter {
        FilterView::Compare { value, .. } => seq![value],
        FilterView::And(left, right) => filter_values(*left) + filter_values(*right),
        FilterView::Or(left, right) => filter_values(*left) + filter_values(*right),
    }
}

/// A condition as a statement spells it, where its first value stands at a place among those
/// bound.
///
/// Fully parenthesised rather than relying on the grammar's precedence: parentheses make the tree
/// the caller built the tree that runs.
pub open spec fn filter_text(filter: FilterView, at: nat) -> Seq<char>
    decreases filter,
{
    match filter {
        FilterView::Compare { field, how, .. } => field + " "@ + how.spelling() + " "@ + reference(
            at,
        ),
        FilterView::And(left, right) => "("@ + filter_text(*left, at) + " AND "@ + filter_text(
            *right,
            at + filter_values(*left).len(),
        ) + ")"@,
        FilterView::Or(left, right) => "("@ + filter_text(*left, at) + " OR "@ + filter_text(
            *right,
            at + filter_values(*left).len(),
        ) + ")"@,
    }
}

/// Why a condition cannot be rendered, where it cannot: the first field that is not a name.
pub open spec fn filter_fault(filter: FilterView) -> Option<BuildErrorView>
    decreases filter,
{
    match filter {
        FilterView::Compare { field, .. } => name_fault("a field"@, field),
        FilterView::And(left, right) => match filter_fault(*left) {
            Some(fault) => Some(fault),
            None => filter_fault(*right),
        },
        FilterView::Or(left, right) => match filter_fault(*left) {
            Some(fault) => Some(fault),
            None => filter_fault(*right),
        },
    }
}

impl Filter {
    /// This condition and another.
    #[must_use]
    pub fn and(self, other: Self) -> (filter: Self)
        ensures
            filter@ == FilterView::And(Box::new(self@), Box::new(other@)),
    {
        Filter(Node::And(Box::new(self.0), Box::new(other.0)))
    }

    /// This condition or another.
    #[must_use]
    pub fn or(self, other: Self) -> (filter: Self)
        ensures
            filter@ == FilterView::Or(Box::new(self@), Box::new(other@)),
    {
        Filter(Node::Or(Box::new(self.0), Box::new(other.0)))
    }

    /// Render into statement text, binding every value on the way.
    pub(crate) fn render(&self, binder: &mut Binder) -> (rendered: Result<String, BuildError>)
        requires
            old(binder).well_formed(),
        ensures
            final(binder).well_formed(),
            match rendered {
                Ok(text) => filter_fault(self@) is None && text@ == filter_text(
                    self@,
                    old(binder).values().len(),
                ) && final(binder).values() == old(binder).values() + filter_values(self@),
                Err(error) => filter_fault(self@) == Some(error@),
            },
    {
        self.0.render(binder)
    }
}

impl Node {
    fn render(&self, binder: &mut Binder) -> (rendered: Result<String, BuildError>)
        requires
            old(binder).well_formed(),
        ensures
            final(binder).well_formed(),
            match rendered {
                Ok(text) => filter_fault(node_view(*self)) is None && text@ == filter_text(
                    node_view(*self),
                    old(binder).values().len(),
                ) && final(binder).values() == old(binder).values() + filter_values(
                    node_view(*self),
                ),
                Err(error) => filter_fault(node_view(*self)) == Some(error@),
            },
        decreases self,
    {
        let ghost before = binder.values();
        match self {
            Node::Compare { field, how, value } => {
                check_name("a field", field.as_str())?;
                let bound = binder.bind(value.clone());
                assert(binder.values() =~= before + filter_values(node_view(*self)));
                Ok(
                    field.clone().concat(" ").concat(how.spelled()).concat(" ").concat(
                        bound.as_str(),
                    ),
                )
            },
            Node::And(left, right) => {
                let first = left.render(binder)?;
                let second = right.render(binder)?;
                assert(binder.values() =~= before + filter_values(node_view(*self)));
                Ok(
                    "(".to_owned().concat(first.as_str()).concat(" AND ").concat(
                        second.as_str(),
                    ).concat(")"),
                )
            },
            Node::Or(left, right) => {
                let first = left.render(binder)?;
                let second = right.render(binder)?;
                assert(binder.values() =~= before + filter_values(node_view(*self)));
                Ok(
                    "(".to_owned().concat(first.as_str()).concat(" OR ").concat(
                        second.as_str(),
                    ).concat(")"),
                )
            },
        }
    }
}

impl Clone for Filter {
    fn clone(&self) -> (copy: Self)
        ensures
            copy@ == self@,
    {
        Filter(copy_node(&self.0))
    }
}

fn copy_node(node: &Node) -> (copy: Node)
    ensures
        node_view(copy) == node_view(*node),
    decreases node,
{
    match node {
        Node::Compare { field, how, value } => Node::Compare {
            field: field.clone(),
            how: *how,
            value: value.clone(),
        },
        Node::And(left, right) => Node::And(
            Box::new(copy_node(left)),
            Box::new(copy_node(right)),
        ),
        Node::Or(left, right) => Node::Or(Box::new(copy_node(left)), Box::new(copy_node(right))),
    }
}

}
