use crate::error::{DomainError, DomainErrorView};
use crate::state::State;
use vstd::prelude::*;

verus! {

/// A named attribute that objects may carry: `data_label` is the name under
/// which an object holds the value, `label` is what a reader is shown.
#[derive(Debug, PartialEq, Eq)]
pub struct Field {
    pub id: String,
    pub data_label: String,
    pub label: String,
}

/// A [`Field`] with its texts as sequences of characters.
pub struct FieldView {
    pub id: Seq<char>,
    pub data_label: Seq<char>,
    pub label: Seq<char>,
}

impl View for Field {
    type V = FieldView;

    open spec fn view(&self) -> FieldView {
        FieldView { id: self.id@, data_label: self.data_label@, label: self.label@ }
    }
}

impl Clone for Field {
    fn clone(&self) -> (copy: Self)
        ensures
            copy == *self,
    {
        Field { id: self.id.clone(), data_label: self.data_label.clone(), label: self.label.clone() }
    }
}

/// The fields of a list as mathematical values, in the same order.
pub open spec fn fields_view(fields: Seq<Field>) -> Seq<FieldView> {
    fields.map_values(|field: Field| field@)
}

/// Access to the fields of a store. No call leaves keys behind that are
/// out of line with the rules and the objects.
pub trait FieldRepository {
    /// What the store holds.
    spec fn state(&self) -> State;

    /// Whether calls fail only where the rules of the store refuse them.
    spec fn reliable(&self) -> bool;

    /// All fields, oldest first.
    fn find_all(&self) -> (result: Result<Vec<Field>, DomainError>)
        ensures
            result matches Ok(fields) ==> fields_view(fields@) == self.state().fields,
            self.reliable() ==> result is Ok,
    ;

    /// Creates a field under a new identifier.
    fn create(&mut self, data_label: String, label: String) -> (result: Result<Field, DomainError>)
        ensures
            match result {
                Ok(field) => {
                    &&& field@.data_label == data_label@
                    &&& field@.label == label@
                    &&& old(self).state().field_inserted(field@) == Ok::<State, DomainErrorView>(
                        final(self).state(),
                    )
                },
                Err(error) => {
                    &&& final(self).state() == old(self).state()
                    &&& old(self).reliable() ==> exists|id: Seq<char>| #[trigger]
                        old(self).state().field_inserted(
                            FieldView { id, data_label: data_label@, label: label@ },
                        ) == Err::<State, DomainErrorView>(error@)
                },
            },
            old(self).state().consistent() ==> final(self).state().consistent(),
            final(self).reliable() == old(self).reliable(),
    ;

    /// Gives the field with the identifier another label.
    fn update(&mut self, id: String, label: String) -> (result: Result<Field, DomainError>)
        ensures
            match result {
                Ok(field) => {
                    &&& old(self).state().field_relabelled(id@, label@) == Ok::<State, DomainErrorView>(
                        final(self).state(),
                    )
                    &&& final(self).state().field(id@) == Some(field@)
                },
                Err(error) => {
                    &&& final(self).state() == old(self).state()
                    &&& old(self).reliable() ==> old(self).state().field_relabelled(id@, label@)
                        == Err::<State, DomainErrorView>(error@)
                },
            },
            old(self).state().consistent() ==> final(self).state().consistent(),
            final(self).reliable() == old(self).reliable(),
    ;
}

} // verus!
