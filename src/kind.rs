use vstd::prelude::*;

verus! {

/// The scalar shapes a field value can take.
#[derive(Clone, Copy, Debug, PartialEq, Eq, Structural)]
pub enum ScalarKind {
    Text,
    Bool,
    Int8,
    Int16,
    Int32,
    Int64,
    UInt8,
    UInt16,
    UInt32,
    UInt64,
}

/// What one item of a field holds: a scalar, or a nested record of the
/// type at the given index of the schema.
#[derive(Clone, Copy, Debug, PartialEq, Eq, Structural)]
pub enum ItemKind {
    Scalar(ScalarKind),
    Record(usize),
}

/// The declared shape of a field: exactly one item, an optional item, or a
/// list of items. Optional and list shapes never nest.
#[derive(Clone, Copy, Debug, PartialEq, Eq, Structural)]
pub enum ValueKind {
    One(ItemKind),
    Optional(ItemKind),
    List(ItemKind),
}

/// Where a field takes its value from.
#[derive(Clone, Copy, Debug, PartialEq, Eq, Structural)]
pub enum Role {
    Element,
    Attribute,
    Text,
}

impl ValueKind {
    pub open spec fn spec_item(self) -> ItemKind {
        match self {
            ValueKind::One(i) => i,
            ValueKind::Optional(i) => i,
            ValueKind::List(i) => i,
        }
    }

    /// The kind of each item of the field.
    #[verifier::when_used_as_spec(spec_item)]
    pub fn item(self) -> (r: ItemKind)
        ensures
            r == self.spec_item(),
    {
        match self {
            ValueKind::One(i) => i,
            ValueKind::Optional(i) => i,
            ValueKind::List(i) => i,
        }
    }
}

} // verus!
