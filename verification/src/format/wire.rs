//! Fields of a state file that may be absent.
use vstd::prelude::*;

verus! {

/// The model of a [`WireField`] that holds a list.
#[verifier::ext_equal]
pub enum FieldView<V> {
    Missing,
    Null,
    Value(Seq<V>),
}

impl<V> FieldView<V> {
    /// The records of the field; none where it holds no list.
    pub open spec fn records(self) -> Seq<V> {
        match self {
            FieldView::Value(records) => records,
            _ => Seq::empty(),
        }
    }
}

/// A field that may be missing from a state file, be there as null, or have a
/// value.
#[derive(Debug, PartialEq, Eq)]
pub enum WireField<T> {
    Missing,
    Null,
    Value(T),
}

/// The model of a field that holds a list.
pub open spec fn field_view<T: View>(field: WireField<Vec<T>>) -> FieldView<T::V> {
    match field {
        WireField::Missing => FieldView::Missing,
        WireField::Null => FieldView::Null,
        WireField::Value(records) => FieldView::Value(crate::keyed::views(records@)),
    }
}

impl<T> WireField<T> {
    /// Whether the field is in the file at all.
    pub fn is_present(&self) -> (r: bool)
        ensures
            r == !(self is Missing),
    {
        !matches!(self, WireField::Missing)
    }

    /// The value of the field, or `message` where it has none.
    pub fn into_required(self, message: &str) -> (r: Result<T, String>)
        ensures
            match r {
                Ok(value) => self == WireField::Value(value),
                Err(e) => !(self is Value) && e@ == message@,
            },
    {
        match self {
            WireField::Value(value) => Ok(value),
            WireField::Missing | WireField::Null => Err(message.to_owned()),
        }
    }
}

impl<T: Clone> WireField<Vec<T>> {
    /// A copy of the field.
    pub(crate) fn copied(&self) -> (r: WireField<Vec<T>>)
        ensures
            match (*self, r) {
                (WireField::Value(a), WireField::Value(b)) => {
                    &&& a@.len() == b@.len()
                    &&& forall|i: int|
                        #![all_triggers]
                        0 <= i < a@.len() ==> cloned::<T>(a@[i], b@[i])
                },
                (WireField::Missing, WireField::Missing) => true,
                (WireField::Null, WireField::Null) => true,
                _ => false,
            },
    {
        match self {
            WireField::Missing => WireField::Missing,
            WireField::Null => WireField::Null,
            WireField::Value(records) => WireField::Value(records.clone()),
        }
    }
}

} // verus!
