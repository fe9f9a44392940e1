//! The shape of a `TypedDict`: its fields, whether it is closed, and its extra items.
use vstd::prelude::*;
use crate::text::str_eq;

verus! {

/// A declared field of a `TypedDict`.
#[derive(Debug)]
pub struct TypedDictFieldShape {
    pub value_type: String,
    pub required: bool,
    pub readonly: bool,
}

/// The type of the extra items a `TypedDict` accepts.
#[derive(Debug)]
pub struct TypedDictExtraItemsShape {
    pub value_type: String,
    pub readonly: bool,
}

/// A `TypedDict`: its name, its fields by key, whether it is closed, and its extra items.
#[derive(Debug)]
pub struct TypedDictShape {
    pub name: String,
    pub fields: Vec<(String, TypedDictFieldShape)>,
    pub closed: bool,
    pub extra_items: Option<TypedDictExtraItemsShape>,
}

impl TypedDictShape {
    /// No key is declared twice.
    pub open spec fn wf(&self) -> bool {
        forall|i: int, j: int|
            0 <= i < j < self.fields@.len() ==> #[trigger] self.fields@[i].0@ != #[trigger] self.fields@[j].0@
    }

    /// The position of the field with the given key, if there is one.
    pub open spec fn field_index(&self, key: Seq<char>) -> Option<int> {
        if exists|i: int| 0 <= i < self.fields@.len() && self.fields@[i].0@ == key {
            Some(choose|i: int| 0 <= i < self.fields@.len() && self.fields@[i].0@ == key)
        } else {
            None
        }
    }
}

/// A field of a `TypedDict`, declared or accepted as an extra item.
pub enum TypedDictFieldShapeRef<'a> {
    Known(&'a TypedDictFieldShape),
    Extra(&'a TypedDictExtraItemsShape),
}

impl<'a> TypedDictFieldShapeRef<'a> {
    /// The value type of the field.
    pub fn value_type(&self) -> (res: &str)
        ensures
            res@ == match *self {
                TypedDictFieldShapeRef::Known(f) => f.value_type@,
                TypedDictFieldShapeRef::Extra(f) => f.value_type@,
            },
    {
        match self {
            TypedDictFieldShapeRef::Known(field) => field.value_type.as_str(),
            TypedDictFieldShapeRef::Extra(field) => field.value_type.as_str(),
        }
    }

    /// Whether the field is read-only.
    pub fn readonly(&self) -> (res: bool)
        ensures
            res == match *self {
                TypedDictFieldShapeRef::Known(f) => f.readonly,
                TypedDictFieldShapeRef::Extra(f) => f.readonly,
            },
    {
        match self {
            TypedDictFieldShapeRef::Known(field) => field.readonly,
            TypedDictFieldShapeRef::Extra(field) => field.readonly,
        }
    }
}

/// The declared field with the given key, or else the extra items, if the shape has them.
pub fn typed_dict_known_or_extra_field<'a>(shape: &'a TypedDictShape, key: &str) -> (res: Option<
    TypedDictFieldShapeRef<'a>,
>)
    requires
        shape.wf(),
    ensures
        match shape.field_index(key@) {
            Some(i) => res == Some(TypedDictFieldShapeRef::Known(&shape.fields@[i].1)),
            None => match shape.extra_items {
                Some(e) => res == Some(TypedDictFieldShapeRef::Extra(&e)),
                None => res is None,
            },
        },
{
    let n = shape.fields.len();
    let mut i: usize = 0;
    while i < n
        invariant
            n == shape.fields@.len(),
            shape.wf(),
            i <= n,
            forall|j: int| 0 <= j < i ==> shape.fields@[j].0@ != key@,
        decreases n - i,
    {
        if str_eq(&shape.fields[i].0, key) {
            proof {
                let c = choose|c: int| 0 <= c < shape.fields@.len() && shape.fields@[c].0@ == key@;
                if c != i {
                    if c < i {
                        assert(shape.fields@[c].0@ != shape.fields@[i as int].0@);
                    } else {
                        assert(shape.fields@[i as int].0@ != shape.fields@[c].0@);
                    }
                }
            }
            return Some(TypedDictFieldShapeRef::Known(&shape.fields[i].1));
        }
        i = i + 1;
    }
    match &shape.extra_items {
        Some(e) => Some(TypedDictFieldShapeRef::Extra(e)),
        None => None,
    }
}

/// Whether a `TypedDict` accepts keys it does not declare with no bound on their values: it is
/// open and names no extra items.
pub fn typed_dict_shape_has_unbounded_extra_keys(shape: &TypedDictShape) -> (res: bool)
    ensures
        res == (!shape.closed && shape.extra_items is None),
{
    !shape.closed && shape.extra_items.is_none()
}

} // verus!
