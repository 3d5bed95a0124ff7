use vstd::prelude::*;
use crate::kind::{ItemKind, Role, ScalarKind, ValueKind};
use crate::value::{Scalar, ScalarModel};

verus! {

/// The value a field slot starts with before any event is read.
#[derive(Debug)]
pub enum FieldDefault {
    /// The empty value of the field's kind: empty text, `false`, zero, the
    /// default record of a nested type, no optional item, an empty list.
    Implicit,
    /// A declared literal, for a single or optional scalar field.
    Literal(Scalar),
    /// Declared starting items, for a list of scalars.
    Items(Vec<Scalar>),
    /// A declared record, for a single or optional nested record field whose
    /// type has only single scalar fields: one value per field.
    Fields(Vec<Scalar>),
}

impl FieldDefault {
    /// Binds a default provider to a field when its descriptor is built: the
    /// provider is called once, here, and every read starts the field with
    /// the value it gave.
    pub fn provided<F: FnOnce() -> Scalar>(provider: F) -> (r: FieldDefault)
        requires
            provider.requires(()),
        ensures
            r is Literal,
            provider.ensures((), r->Literal_0),
    {
        FieldDefault::Literal(provider())
    }
}

/// The mathematical value of a [`FieldDefault`].
pub enum DefaultModel {
    Implicit,
    Literal(ScalarModel),
    Items(Seq<ScalarModel>),
    Fields(Seq<ScalarModel>),
}

/// How one field of a record type is read.
#[derive(Debug)]
pub struct FieldDescriptor {
    pub name: String,
    /// The attribute or element name the field is read from.
    pub xml_name: String,
    pub role: Role,
    pub kind: ValueKind,
    pub default: FieldDefault,
}

/// How a record type is read: the name of its element, its fields in
/// declaration order, and the namespace URIs its element must carry.
#[derive(Debug)]
pub struct TypeDescriptor {
    pub root: String,
    pub fields: Vec<FieldDescriptor>,
    pub namespaces: Vec<String>,
}

pub struct FieldView {
    pub name: Seq<char>,
    pub xml_name: Seq<char>,
    pub role: Role,
    pub kind: ValueKind,
    pub default: DefaultModel,
}

pub struct TypeView {
    pub root: Seq<char>,
    pub fields: Seq<FieldView>,
    pub namespaces: Seq<Seq<char>>,
}

impl View for FieldDefault {
    type V = DefaultModel;

    open spec fn view(&self) -> DefaultModel {
        match self {
            FieldDefault::Implicit => DefaultModel::Implicit,
            FieldDefault::Literal(s) => DefaultModel::Literal(s@),
            FieldDefault::Items(v) => DefaultModel::Items(v@.map_values(|x: Scalar| x@)),
            FieldDefault::Fields(v) => DefaultModel::Fields(v@.map_values(|x: Scalar| x@)),
        }
    }
}

impl View for FieldDescriptor {
    type V = FieldView;

    open spec fn view(&self) -> FieldView {
        FieldView {
            name: self.name@,
            xml_name: self.xml_name@,
            role: self.role,
            kind: self.kind,
            default: self.default@,
        }
    }
}

impl View for TypeDescriptor {
    type V = TypeView;

    open spec fn view(&self) -> TypeView {
        TypeView {
            root: self.root@,
            fields: self.fields@.map_values(|f: FieldDescriptor| f@),
            namespaces: self.namespaces@.map_values(|s: String| s@),
        }
    }
}

pub open spec fn schema_view(types: Seq<TypeDescriptor>) -> Seq<TypeView> {
    types.map_values(|t: TypeDescriptor| t@)
}

/// Whether a scalar value is of the given kind.
pub open spec fn scalar_has_kind(s: ScalarModel, k: ScalarKind) -> bool {
    match (s, k) {
        (ScalarModel::Text(_), ScalarKind::Text) => true,
        (ScalarModel::Bool(_), ScalarKind::Bool) => true,
        (ScalarModel::I8(_), ScalarKind::Int8) => true,
        (ScalarModel::I16(_), ScalarKind::Int16) => true,
        (ScalarModel::I32(_), ScalarKind::Int32) => true,
        (ScalarModel::I64(_), ScalarKind::Int64) => true,
        (ScalarModel::U8(_), ScalarKind::UInt8) => true,
        (ScalarModel::U16(_), ScalarKind::UInt16) => true,
        (ScalarModel::U32(_), ScalarKind::UInt32) => true,
        (ScalarModel::U64(_), ScalarKind::UInt64) => true,
        _ => false,
    }
}

/// Every item is a scalar of kind `k`.
pub open spec fn all_of_kind(items: Seq<ScalarModel>, k: ScalarKind) -> bool {
    forall|j: int| 0 <= j < items.len() ==> scalar_has_kind(#[trigger] items[j], k)
}

/// A single or optional scalar: the shapes that attributes, text and
/// declared literals can fill.
pub open spec fn is_plain_scalar(k: ValueKind) -> bool {
    match k {
        ValueKind::One(ItemKind::Scalar(_)) => true,
        ValueKind::Optional(ItemKind::Scalar(_)) => true,
        _ => false,
    }
}

/// A field of the type at index `t` of a schema of `n` types is well formed:
/// a nested record type exists, and a single nested record is of a type that
/// stands earlier in the schema, so that default records are finite;
/// text fields hold a single or optional scalar, attribute fields that or a
/// single nested record; a literal default is of the field's scalar kind.
pub open spec fn field_wf(n: nat, t: nat, f: FieldView) -> bool {
    &&& match f.kind.spec_item() {
        ItemKind::Record(r) => r < n,
        ItemKind::Scalar(_) => true,
    }
    &&& match f.kind {
        ValueKind::One(ItemKind::Record(r)) => r < t,
        _ => true,
    }
    &&& (f.role == Role::Text ==> is_plain_scalar(f.kind))
    &&& (f.role == Role::Attribute ==> is_plain_scalar(f.kind) || f.kind is One)
    &&& match f.default {
        DefaultModel::Implicit => true,
        DefaultModel::Literal(s) => is_plain_scalar(f.kind) && match f.kind.spec_item() {
            ItemKind::Scalar(k) => scalar_has_kind(s, k),
            ItemKind::Record(_) => false,
        },
        DefaultModel::Items(items) => match f.kind {
            ValueKind::List(ItemKind::Scalar(k)) => all_of_kind(items, k),
            _ => false,
        },
        DefaultModel::Fields(_) => !(f.kind is List) && f.kind.spec_item() is Record,
    }
}

/// A record type is well formed: its fields are, their names are unique, and
/// at most one of them is read from text.
pub open spec fn type_wf(n: nat, t: nat, ty: TypeView) -> bool {
    &&& forall|i: int| 0 <= i < ty.fields.len() ==> field_wf(n, t, #[trigger] ty.fields[i])
    &&& forall|i: int, j: int|
        0 <= i < ty.fields.len() && 0 <= j < ty.fields.len() && i != j ==> #[trigger] ty.fields[i].name
            != #[trigger] ty.fields[j].name
    &&& forall|i: int, j: int|
        0 <= i < ty.fields.len() && 0 <= j < ty.fields.len() && #[trigger] ty.fields[i].role
            == Role::Text && #[trigger] ty.fields[j].role == Role::Text ==> i == j
}

/// Declared values fit a record type: one single scalar of the right kind
/// per field.
pub open spec fn values_fit(ty: TypeView, values: Seq<ScalarModel>) -> bool {
    &&& values.len() == ty.fields.len()
    &&& forall|j: int|
        0 <= j < values.len() ==> match (#[trigger] ty.fields[j]).kind {
            ValueKind::One(ItemKind::Scalar(k)) => scalar_has_kind(values[j], k),
            _ => false,
        }
}

/// A declared record default fits the type of its field.
pub open spec fn record_default_fits(types: Seq<TypeView>, f: FieldView) -> bool {
    match f.default {
        DefaultModel::Fields(values) => match f.kind.spec_item() {
            ItemKind::Record(r) => r < types.len() && values_fit(types[r as int], values),
            ItemKind::Scalar(_) => false,
        },
        _ => true,
    }
}

/// Every type of the schema is well formed, and every declared record
/// default fits its field.
pub open spec fn schema_wf(types: Seq<TypeView>) -> bool {
    &&& forall|t: int| 0 <= t < types.len() ==> type_wf(types.len(), t as nat, #[trigger] types[t])
    &&& forall|t: int, i: int|
        0 <= t < types.len() && 0 <= i < types[t].fields.len() ==> record_default_fits(
            types,
            #[trigger] types[t].fields[i],
        )
}

fn scalar_matches(s: &Scalar, k: ScalarKind) -> (r: bool)
    ensures
        r == scalar_has_kind(s@, k),
{
    match (s, k) {
        (Scalar::Text(_), ScalarKind::Text) => true,
        (Scalar::Bool(_), ScalarKind::Bool) => true,
        (Scalar::I8(_), ScalarKind::Int8) => true,
        (Scalar::I16(_), ScalarKind::Int16) => true,
        (Scalar::I32(_), ScalarKind::Int32) => true,
        (Scalar::I64(_), ScalarKind::Int64) => true,
        (Scalar::U8(_), ScalarKind::UInt8) => true,
        (Scalar::U16(_), ScalarKind::UInt16) => true,
        (Scalar::U32(_), ScalarKind::UInt32) => true,
        (Scalar::U64(_), ScalarKind::UInt64) => true,
        _ => false,
    }
}

fn items_match(items: &Vec<Scalar>, k: ScalarKind) -> (r: bool)
    ensures
        r == all_of_kind(items@.map_values(|x: Scalar| x@), k),
{
    let ghost iv = items@.map_values(|x: Scalar| x@);
    let mut j: usize = 0;
    while j < items.len()
        invariant
            iv == items@.map_values(|x: Scalar| x@),
            j <= items@.len(),
            forall|a: int| 0 <= a < j ==> scalar_has_kind(#[trigger] iv[a], k),
        decreases items@.len() - j,
    {
        assert(iv[j as int] == items@[j as int]@);
        if !scalar_matches(&items[j], k) {
            return false;
        }
        j = j + 1;
    }
    true
}

fn plain_scalar(k: ValueKind) -> (r: bool)
    ensures
        r == is_plain_scalar(k),
{
    match k {
        ValueKind::One(ItemKind::Scalar(_)) => true,
        ValueKind::Optional(ItemKind::Scalar(_)) => true,
        _ => false,
    }
}

/// Whether a field of the type at index `t` of a schema of `n` types is well
/// formed.
pub fn check_field(n: usize, t: usize, f: &FieldDescriptor) -> (r: bool)
    ensures
        r == field_wf(n as nat, t as nat, f@),
{
    let target_ok = match f.kind.item() {
        ItemKind::Record(r) => r < n,
        ItemKind::Scalar(_) => true,
    };
    let order_ok = match f.kind {
        ValueKind::One(ItemKind::Record(r)) => r < t,
        _ => true,
    };
    let role_ok = match f.role {
        Role::Element => true,
        Role::Text => plain_scalar(f.kind),
        Role::Attribute => plain_scalar(f.kind) || matches!(f.kind, ValueKind::One(_)),
    };
    let default_ok = match &f.default {
        FieldDefault::Implicit => true,
        FieldDefault::Literal(s) => plain_scalar(f.kind) && match f.kind.item() {
            ItemKind::Scalar(k) => scalar_matches(s, k),
            ItemKind::Record(_) => false,
        },
        FieldDefault::Items(items) => match f.kind {
            ValueKind::List(ItemKind::Scalar(k)) => items_match(items, k),
            _ => false,
        },
        FieldDefault::Fields(_) => match f.kind {
            ValueKind::List(_) => false,
            _ => matches!(f.kind.item(), ItemKind::Record(_)),
        },
    };
    target_ok && order_ok && role_ok && default_ok
}

/// Whether the type at index `t` of a schema of `n` types is well formed.
pub fn check_type(n: usize, t: usize, ty: &TypeDescriptor) -> (r: bool)
    ensures
        r == type_wf(n as nat, t as nat, ty@),
{
    let ghost fv = ty@.fields;
    let fields = &ty.fields;
    let mut text_seen = false;
    let mut i: usize = 0;
    while i < fields.len()
        invariant
            fv == ty@.fields,
            fields == &ty.fields,
            fv.len() == fields@.len(),
            i <= fields@.len(),
            forall|a: int| 0 <= a < i ==> field_wf(n as nat, t as nat, #[trigger] fv[a]),
            forall|a: int, b: int|
                0 <= a < i && 0 <= b < i && a != b ==> #[trigger] fv[a].name != #[trigger] fv[b].name,
            forall|a: int, b: int|
                0 <= a < i && 0 <= b < i && #[trigger] fv[a].role == Role::Text && #[trigger] fv[b].role
                    == Role::Text ==> a == b,
            text_seen == exists|a: int| 0 <= a < i && #[trigger] fv[a].role == Role::Text,
        decreases fields@.len() - i,
    {
        let f = &fields[i];
        assert(fv[i as int] == f@);
        if !check_field(n, t, f) {
            return false;
        }
        if f.role == Role::Text {
            if text_seen {
                proof {
                    let a = choose|a: int| 0 <= a < i && #[trigger] fv[a].role == Role::Text;
                    let b = i as int;
                    assert(fv[b].role == Role::Text);
                    assert(0 <= a < fv.len() && 0 <= b < fv.len() && a != b);
                    assert(!type_wf(n as nat, t as nat, ty@));
                }
                return false;
            }
            text_seen = true;
        }
        let mut j: usize = 0;
        while j < i
            invariant
                fv == ty@.fields,
                fields == &ty.fields,
                fv.len() == fields@.len(),
                j <= i < fields@.len(),
                forall|b: int| 0 <= b < j ==> fv[b].name != fv[i as int].name,
            decreases i - j,
        {
            assert(fv[j as int] == fields@[j as int]@);
            assert(fv[i as int] == fields@[i as int]@);
            if fields[j].name == fields[i].name {
                assert(fv[j as int].name == fv[i as int].name && j != i);
                assert(!type_wf(n as nat, t as nat, ty@));
                return false;
            }
            j = j + 1;
        }
        i = i + 1;
    }
    true
}

fn values_match(ty: &TypeDescriptor, values: &Vec<Scalar>) -> (r: bool)
    ensures
        r == values_fit(ty@, values@.map_values(|x: Scalar| x@)),
{
    let ghost vv = values@.map_values(|x: Scalar| x@);
    let ghost fv = ty@.fields;
    if values.len() != ty.fields.len() {
        return false;
    }
    let mut j: usize = 0;
    while j < values.len()
        invariant
            vv == values@.map_values(|x: Scalar| x@),
            fv == ty@.fields,
            fv.len() == ty.fields@.len(),
            vv.len() == fv.len(),
            j <= values@.len(),
            forall|a: int|
                0 <= a < j ==> match (#[trigger] fv[a]).kind {
                    ValueKind::One(ItemKind::Scalar(k)) => scalar_has_kind(vv[a], k),
                    _ => false,
                },
        decreases values@.len() - j,
    {
        assert(fv[j as int] == ty.fields@[j as int]@);
        assert(vv[j as int] == values@[j as int]@);
        let ok = match ty.fields[j].kind {
            ValueKind::One(ItemKind::Scalar(k)) => scalar_matches(&values[j], k),
            _ => false,
        };
        if !ok {
            return false;
        }
        j = j + 1;
    }
    true
}

fn check_record_default(types: &Vec<TypeDescriptor>, f: &FieldDescriptor) -> (r: bool)
    ensures
        r == record_default_fits(schema_view(types@), f@),
{
    match &f.default {
        FieldDefault::Fields(values) => match f.kind.item() {
            ItemKind::Record(r) => {
                if r >= types.len() {
                    return false;
                }
                assert(schema_view(types@)[r as int] == types@[r as int]@);
                values_match(&types[r], values)
            },
            ItemKind::Scalar(_) => false,
        },
        _ => true,
    }
}

/// Whether every type of the schema is well formed, which reading requires.
pub fn check_schema(types: &Vec<TypeDescriptor>) -> (r: bool)
    ensures
        r == schema_wf(schema_view(types@)),
{
    let ghost tv = schema_view(types@);
    let mut t: usize = 0;
    while t < types.len()
        invariant
            tv == schema_view(types@),
            t <= types@.len(),
            forall|a: int| 0 <= a < t ==> type_wf(tv.len(), a as nat, #[trigger] tv[a]),
        decreases types@.len() - t,
    {
        assert(tv[t as int] == types@[t as int]@);
        if !check_type(types.len(), t, &types[t]) {
            return false;
        }
        t = t + 1;
    }
    let mut t: usize = 0;
    while t < types.len()
        invariant
            tv == schema_view(types@),
            t <= types@.len(),
            forall|a: int, i: int|
                0 <= a < t && 0 <= i < tv[a].fields.len() ==> record_default_fits(
                    tv,
                    #[trigger] tv[a].fields[i],
                ),
        decreases types@.len() - t,
    {
        assert(tv[t as int] == types@[t as int]@);
        let fields = &types[t].fields;
        let mut i: usize = 0;
        while i < fields.len()
            invariant
                tv == schema_view(types@),
                t < types@.len(),
                fields == &types@[t as int].fields,
                tv[t as int].fields == fields@.map_values(|f: FieldDescriptor| f@),
                i <= fields@.len(),
                forall|a: int, b: int|
                    0 <= a < t && 0 <= b < tv[a].fields.len() ==> record_default_fits(
                        tv,
                        #[trigger] tv[a].fields[b],
                    ),
                forall|b: int| 0 <= b < i ==> record_default_fits(tv, #[trigger] tv[t as int].fields[b]),
            decreases fields@.len() - i,
        {
            assert(tv[t as int].fields[i as int] == fields@[i as int]@);
            if !check_record_default(types, &fields[i]) {
                return false;
            }
            i = i + 1;
        }
        t = t + 1;
    }
    true
}

} // verus!
