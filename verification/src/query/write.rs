//! Writing.

use vstd::prelude::*;
use vstd::string::StringExecFns;

use crate::fields::with_field;
use crate::query::{
    bound, check_name, name_fault, record_target, reference, target, Binder, BuildError,
    BuildErrorView, Query, QueryView,
};
use crate::text::{join, joined, IntoText};
use crate::value::{entries_view, Fields, IntoValue, Value, ValueView};

verus! {

/// Each field as a statement spells it: its name, what stands between, and the reference to its
/// value, the first of which stands at a place among those bound.
pub open spec fn field_parts(
    fields: Seq<(Seq<char>, ValueView)>,
    between: Seq<char>,
    at: nat,
) -> Seq<Seq<char>> {
    Seq::new(fields.len(), |i: int| fields[i].0 + between + reference((at + i) as nat))
}

/// The values of some fields, in the order of their names.
pub open spec fn field_values(fields: Seq<(Seq<char>, ValueView)>) -> Seq<ValueView> {
    Seq::new(fields.len(), |i: int| fields[i].1)
}

/// The first field whose name is not a name.
pub open spec fn fields_fault(fields: Seq<(Seq<char>, ValueView)>) -> Option<BuildErrorView>
    decreases fields.len(),
{
    if fields.len() == 0 {
        None
    } else {
        match fields_fault(fields.drop_last()) {
            Some(fault) => Some(fault),
            None => name_fault("a field"@, fields.last().0),
        }
    }
}

/// Write a record, replacing whatever was there.
#[derive(Debug, Clone)]
pub struct Create {
    table: String,
    id: Option<Value>,
    fields: Fields,
}

/// What a record is written as.
#[verifier::ext_equal]
pub struct CreateView {
    /// The table.
    pub table: Seq<char>,
    /// The identity, where the caller names it.
    pub id: Option<ValueView>,
    /// The fields, in the order of their names.
    pub fields: Seq<(Seq<char>, ValueView)>,
}

impl View for Create {
    type V = CreateView;

    closed spec fn view(&self) -> CreateView {
        CreateView {
            table: self.table@,
            id: match self.id {
                Some(id) => Some(id@),
                None => None,
            },
            fields: self.fields@,
        }
    }
}

/// What a create writes to: one record, or the bare table.
pub open spec fn create_target(create: CreateView) -> Seq<char> {
    match create.id {
        Some(_) => target(create.table, 0),
        None => create.table,
    }
}

/// The values a create binds: the identity, where there is one, and then the fields.
pub open spec fn create_values(create: CreateView) -> Seq<ValueView> {
    match create.id {
        Some(id) => seq![id] + field_values(create.fields),
        None => field_values(create.fields),
    }
}

/// A create as a statement spells it.
pub open spec fn create_script(create: CreateView) -> Seq<char> {
    "CREATE "@ + create_target(create) + " = { "@ + joined(
        field_parts(
            create.fields,
            ": "@,
            if create.id is Some {
                1
            } else {
                0
            },
        ),
    ) + " };"@
}

/// Why a create cannot be rendered, where it cannot.
pub open spec fn create_fault(create: CreateView) -> Option<BuildErrorView> {
    if create.fields.len() == 0 {
        Some(BuildErrorView::Incomplete { what: "a create needs at least one field"@ })
    } else {
        match name_fault("a table"@, create.table) {
            Some(fault) => Some(fault),
            None => fields_fault(create.fields),
        }
    }
}

/// The statement that a create is, or why it cannot be rendered.
pub open spec fn create_query(create: CreateView) -> Result<QueryView, BuildErrorView> {
    match create_fault(create) {
        Some(fault) => Err(fault),
        None => Ok(
            QueryView { script: create_script(create), parameters: bound(create_values(create)) },
        ),
    }
}

impl Create {
    /// A record in a table, by identity.
    #[must_use]
    pub fn record(table: impl IntoText, id: impl IntoValue) -> (create: Self)
        ensures
            create@ == (CreateView {
                table: table.text(),
                id: Some(id.value()),
                fields: Seq::empty(),
            }),
    {
        Create { table: table.into_text(), id: Some(id.into_value()), fields: Fields::new() }
    }

    /// A record in a table, letting the store name it.
    ///
    /// The store allocates the identity and answers with it, so the caller does not have to invent
    /// one that is unique. [`record`](Self::record) stays for an identity that came from outside
    /// and means something there, like an order number or an account id.
    #[must_use]
    pub fn in_table(table: impl IntoText) -> (create: Self)
        ensures
            create@ == (CreateView { table: table.text(), id: None, fields: Seq::empty() }),
    {
        Create { table: table.into_text(), id: None, fields: Fields::new() }
    }

    /// Give a field a value.
    #[must_use]
    pub fn set(self, name: impl IntoText, value: impl IntoValue) -> (create: Self)
        ensures
            create@ == (CreateView {
                fields: with_field(self@.fields, name.text(), value.value()),
                ..self@
            }),
    {
        let mut create = self;
        create.fields.insert(name.into_text(), value.into_value());
        create
    }

    /// Render the statement and its parameters.
    pub fn build(&self) -> (built: Result<Query, BuildError>)
        ensures
            match built {
                Ok(query) => create_query(self@) == Ok::<QueryView, BuildErrorView>(query@),
                Err(error) => create_query(self@) == Err::<QueryView, BuildErrorView>(error@),
            },
    {
        if self.fields.is_empty() {
            return Err(BuildError::Incomplete { what: "a create needs at least one field" });
        }
        let mut binder = Binder::new();
        // The bare table is the whole difference between the two forms, and it is checked as a
        // name here because the named form, which checks its own, is not on this path.
        let target = match &self.id {
            Some(id) => record_target(self.table.as_str(), id.clone(), &mut binder)?,
            None => {
                check_name("a table", self.table.as_str())?;
                self.table.clone()
            },
        };
        let body = render_fields(&self.fields, ": ", &mut binder)?;
        assert(binder.values() =~= create_values(self@));
        let script = "CREATE ".to_owned()
            .concat(target.as_str())
            .concat(" = { ")
            .concat(body.as_str())
            .concat(" };");
        Ok(Query { script, parameters: binder.finish() })
    }
}

/// Change fields on a record, leaving the rest alone.
#[derive(Debug, Clone)]
pub struct Update {
    table: String,
    id: Value,
    fields: Fields,
}

/// What is changed on a record.
#[verifier::ext_equal]
pub struct UpdateView {
    /// The table.
    pub table: Seq<char>,
    /// The identity.
    pub id: ValueView,
    /// The fields, in the order of their names.
    pub fields: Seq<(Seq<char>, ValueView)>,
}

impl View for Update {
    type V = UpdateView;

    closed spec fn view(&self) -> UpdateView {
        UpdateView { table: self.table@, id: self.id@, fields: self.fields@ }
    }
}

/// The values an update binds: the identity and then the fields.
pub open spec fn update_values(update: UpdateView) -> Seq<ValueView> {
    seq![update.id] + field_values(update.fields)
}

/// An update as a statement spells it: it sets the named fields and leaves the rest alone.
pub open spec fn update_script(update: UpdateView) -> Seq<char> {
    "UPDATE "@ + target(update.table, 0) + " SET "@ + joined(
        field_parts(update.fields, " = "@, 1),
    ) + ";"@
}

/// Why an update cannot be rendered, where it cannot.
pub open spec fn update_fault(update: UpdateView) -> Option<BuildErrorView> {
    if update.fields.len() == 0 {
        Some(BuildErrorView::Incomplete { what: "an update needs at least one field to set"@ })
    } else {
        match name_fault("a table"@, update.table) {
            Some(fault) => Some(fault),
            None => fields_fault(update.fields),
        }
    }
}

/// The statement that an update is, or why it cannot be rendered.
pub open spec fn update_query(update: UpdateView) -> Result<QueryView, BuildErrorView> {
    match update_fault(update) {
        Some(fault) => Err(fault),
        None => Ok(
            QueryView { script: update_script(update), parameters: bound(update_values(update)) },
        ),
    }
}

impl Update {
    /// A record in a table, by identity.
    #[must_use]
    pub fn record(table: impl IntoText, id: impl IntoValue) -> (update: Self)
        ensures
            update@ == (UpdateView { table: table.text(), id: id.value(), fields: Seq::empty() }),
    {
        Update { table: table.into_text(), id: id.into_value(), fields: Fields::new() }
    }

    /// Give a field a new value.
    #[must_use]
    pub fn set(self, name: impl IntoText, value: impl IntoValue) -> (update: Self)
        ensures
            update@ == (UpdateView {
                fields: with_field(self@.fields, name.text(), value.value()),
                ..self@
            }),
    {
        let mut update = self;
        update.fields.insert(name.into_text(), value.into_value());
        update
    }

    /// Render the statement and its parameters.
    ///
    /// Emits `SET`, which changes the named fields only. The whole-record form replaces everything
    /// and is not what a builder with a `set` method should quietly do: a caller who wants a
    /// replacement asks for [`Create`], where the word says so.
    pub fn build(&self) -> (built: Result<Query, BuildError>)
        ensures
            match built {
                Ok(query) => update_query(self@) == Ok::<QueryView, BuildErrorView>(query@),
                Err(error) => update_query(self@) == Err::<QueryView, BuildErrorView>(error@),
            },
    {
        if self.fields.is_empty() {
            return Err(
                BuildError::Incomplete { what: "an update needs at least one field to set" },
            );
        }
        let mut binder = Binder::new();
        let target = record_target(self.table.as_str(), self.id.clone(), &mut binder)?;
        let assignments = render_fields(&self.fields, " = ", &mut binder)?;
        assert(binder.values() =~= update_values(self@));
        let script = "UPDATE ".to_owned()
            .concat(target.as_str())
            .concat(" SET ")
            .concat(assignments.as_str())
            .concat(";");
        Ok(Query { script, parameters: binder.finish() })
    }
}

/// Remove a record.
#[derive(Debug, Clone)]
pub struct Delete {
    table: String,
    id: Value,
}

/// Which record is removed.
#[verifier::ext_equal]
pub struct DeleteView {
    /// The table.
    pub table: Seq<char>,
    /// The identity.
    pub id: ValueView,
}

impl View for Delete {
    type V = DeleteView;

    closed spec fn view(&self) -> DeleteView {
        DeleteView { table: self.table@, id: self.id@ }
    }
}

/// A delete as a statement spells it.
pub open spec fn delete_script(delete: DeleteView) -> Seq<char> {
    "DELETE "@ + target(delete.table, 0) + ";"@
}

/// The statement that a delete is, or why it cannot be rendered.
pub open spec fn delete_query(delete: DeleteView) -> Result<QueryView, BuildErrorView> {
    match name_fault("a table"@, delete.table) {
        Some(fault) => Err(fault),
        None => Ok(
            QueryView { script: delete_script(delete), parameters: bound(seq![delete.id]) },
        ),
    }
}

impl Delete {
    /// A record in a table, by identity.
    #[must_use]
    pub fn record(table: impl IntoText, id: impl IntoValue) -> (delete: Self)
        ensures
            delete@ == (DeleteView { table: table.text(), id: id.value() }),
    {
        Delete { table: table.into_text(), id: id.into_value() }
    }

    /// Render the statement and its parameters.
    pub fn build(&self) -> (built: Result<Query, BuildError>)
        ensures
            match built {
                Ok(query) => delete_query(self@) == Ok::<QueryView, BuildErrorView>(query@),
                Err(error) => delete_query(self@) == Err::<QueryView, BuildErrorView>(error@),
            },
    {
        let mut binder = Binder::new();
        let target = record_target(self.table.as_str(), self.id.clone(), &mut binder)?;
        assert(binder.values() =~= seq![self@.id]);
        let script = "DELETE ".to_owned().concat(target.as_str()).concat(";");
        Ok(Query { script, parameters: binder.finish() })
    }
}

/// Fields in the order of their names, each with a reference to its value.
fn render_fields(fields: &Fields, between: &str, binder: &mut Binder) -> (rendered: Result<
    String,
    BuildError,
>)
    requires
        old(binder).well_formed(),
    ensures
        final(binder).well_formed(),
        match rendered {
            Ok(text) => fields_fault(fields@) is None && text@ == joined(
                field_parts(fields@, between@, old(binder).values().len()),
            ) && final(binder).values() == old(binder).values() + field_values(fields@),
            Err(error) => fields_fault(fields@) == Some(error@),
        },
{
    let ghost first = binder.values().len();
    let ghost held = fields@;
    let entries = fields.entries();
    let mut text = String::new();
    let mut at: usize = 0;
    assert(held.take(0) =~= Seq::empty());
    assert(field_parts(held.take(0), between@, first) =~= Seq::empty());
    assert(text@ =~= joined(Seq::empty()));
    assert(binder.values() =~= old(binder).values() + field_values(held.take(0)));
    while at < entries.len()
        invariant
            at <= entries@.len(),
            held == fields@,
            held == entries_view(entries@),
            first == old(binder).values().len(),
            binder.well_formed(),
            binder.values() == old(binder).values() + field_values(held.take(at as int)),
            fields_fault(held.take(at as int)) is None,
            text@ == joined(field_parts(held.take(at as int), between@, first)),
        decreases entries.len() - at,
    {
        let entry = &entries[at];
        let ghost before = held.take(at as int);
        let ghost now = held.take(at + 1);
        assert(now.drop_last() =~= before);
        assert(now.last() == (entry.0@, entry.1@));
        match check_name("a field", entry.0.as_str()) {
            Ok(_) => {},
            Err(error) => {
                proof {
                    lemma_fields_fault(held, at + 1);
                }
                return Err(error);
            },
        }
        let reference = binder.bind(entry.1.clone());
        let part = entry.0.clone().concat(between).concat(reference.as_str());
        join(&mut text, at, part.as_str(), Ghost(field_parts(before, between@, first)));
        assert(field_parts(before, between@, first).push(part@) =~= field_parts(
            now,
            between@,
            first,
        ));
        assert(binder.values() =~= old(binder).values() + field_values(now));
        at = at + 1;
    }
    assert(held.take(at as int) =~= held);
    Ok(text)
}

/// The first fault among some fields is the first among them and more.
proof fn lemma_fields_fault(fields: Seq<(Seq<char>, ValueView)>, at: int)
    requires
        0 <= at <= fields.len(),
        fields_fault(fields.take(at)) is Some,
    ensures
        fields_fault(fields) == fields_fault(fields.take(at)),
    decreases fields.len(),
{
    if at == fields.len() {
        assert(fields.take(at) =~= fields);
    } else {
        assert(fields.drop_last().take(at) =~= fields.take(at));
        lemma_fields_fault(fields.drop_last(), at);
    }
}

}
