//! A typed object ID: a `u64` tagged with the object type it belongs to.
use std::marker::PhantomData;
use vstd::prelude::*;

verus! {

/// An object type whose IDs are tokens named after it.
pub trait TypeMarker: std::fmt::Debug {
    /// The codec name, and so the token prefix, of this object type.
    fn name() -> &'static str;
}

/// The ID of an object of the type `T` marks.
#[derive(Debug)]
pub struct Field<T: TypeMarker> {
    id: u64,
    _marker: PhantomData<T>,
}

impl<T: TypeMarker> Field<T> {
    /// The raw number.
    pub closed spec fn id_view(&self) -> u64 {
        self.id
    }

    /// The ID with raw number `id`.
    pub fn from(id: u64) -> (r: Self)
        ensures
            r.id_view() == id,
    {
        Field { id, _marker: PhantomData }
    }

    /// The raw number.
    pub fn id(&self) -> (r: u64)
        ensures
            r == self.id_view(),
    {
        self.id
    }
}

impl<T: TypeMarker> From<Field<T>> for u64 {
    fn from(field: Field<T>) -> (r: u64)
        ensures
            r == field.id_view(),
    {
        field.id
    }
}

impl<T: TypeMarker> vstd::std_specs::convert::FromSpecImpl<Field<T>> for u64 {
    open spec fn obeys_from_spec() -> bool {
        true
    }

    open spec fn from_spec(v: Field<T>) -> u64 {
        v.id_view()
    }
}

} // verus!
