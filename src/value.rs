use vstd::prelude::*;

verus! {

/// A converted scalar value.
#[derive(Debug, PartialEq, Eq)]
pub enum Scalar {
    Text(String),
    Bool(bool),
    I8(i8),
    I16(i16),
    I32(i32),
    I64(i64),
    U8(u8),
    U16(u16),
    U32(u32),
    U64(u64),
}

/// The mathematical value of a [`Scalar`].
pub enum ScalarModel {
    Text(Seq<char>),
    Bool(bool),
    I8(i8),
    I16(i16),
    I32(i32),
    I64(i64),
    U8(u8),
    U16(u16),
    U32(u32),
    U64(u64),
}

impl View for Scalar {
    type V = ScalarModel;

    open spec fn view(&self) -> ScalarModel {
        match self {
            Scalar::Text(s) => ScalarModel::Text(s@),
            Scalar::Bool(b) => ScalarModel::Bool(*b),
            Scalar::I8(v) => ScalarModel::I8(*v),
            Scalar::I16(v) => ScalarModel::I16(*v),
            Scalar::I32(v) => ScalarModel::I32(*v),
            Scalar::I64(v) => ScalarModel::I64(*v),
            Scalar::U8(v) => ScalarModel::U8(*v),
            Scalar::U16(v) => ScalarModel::U16(*v),
            Scalar::U32(v) => ScalarModel::U32(*v),
            Scalar::U64(v) => ScalarModel::U64(*v),
        }
    }
}

impl Scalar {
    /// A fresh copy of this value.
    pub fn duplicate(&self) -> (r: Scalar)
        ensures
            r@ == self@,
    {
        match self {
            Scalar::Text(s) => Scalar::Text(s.clone()),
            Scalar::Bool(b) => Scalar::Bool(*b),
            Scalar::I8(v) => Scalar::I8(*v),
            Scalar::I16(v) => Scalar::I16(*v),
            Scalar::I32(v) => Scalar::I32(*v),
            Scalar::I64(v) => Scalar::I64(*v),
            Scalar::U8(v) => Scalar::U8(*v),
            Scalar::U16(v) => Scalar::U16(*v),
            Scalar::U32(v) => Scalar::U32(*v),
            Scalar::U64(v) => Scalar::U64(*v),
        }
    }
}

/// One item of a field: a scalar, or a nested record given by its index in
/// the [`Document`] that holds it.
#[derive(Debug, PartialEq, Eq)]
pub enum Item {
    Scalar(Scalar),
    Record(usize),
}

pub enum ItemModel {
    Scalar(ScalarModel),
    Record(nat),
}

impl View for Item {
    type V = ItemModel;

    open spec fn view(&self) -> ItemModel {
        match self {
            Item::Scalar(s) => ItemModel::Scalar(s@),
            Item::Record(i) => ItemModel::Record(*i as nat),
        }
    }
}

/// The value held by one field slot.
#[derive(Debug, PartialEq, Eq)]
pub enum Value {
    One(Item),
    Optional(Option<Item>),
    List(Vec<Item>),
}

pub enum ValueModel {
    One(ItemModel),
    Optional(Option<ItemModel>),
    List(Seq<ItemModel>),
}

pub open spec fn option_item_view(o: Option<Item>) -> Option<ItemModel> {
    match o {
        Some(i) => Some(i@),
        None => None,
    }
}

impl View for Value {
    type V = ValueModel;

    open spec fn view(&self) -> ValueModel {
        match self {
            Value::One(i) => ValueModel::One(i@),
            Value::Optional(o) => ValueModel::Optional(option_item_view(*o)),
            Value::List(v) => ValueModel::List(v@.map_values(|i: Item| i@)),
        }
    }
}

/// An assembled record: the type it was read as, and one value per field of
/// that type, in declaration order.
#[derive(Debug, PartialEq, Eq)]
pub struct Record {
    pub type_id: usize,
    pub fields: Vec<Value>,
}

pub struct RecordModel {
    pub type_id: nat,
    pub fields: Seq<ValueModel>,
}

pub open spec fn values_view(v: Seq<Value>) -> Seq<ValueModel> {
    v.map_values(|x: Value| x@)
}

impl View for Record {
    type V = RecordModel;

    open spec fn view(&self) -> RecordModel {
        RecordModel { type_id: self.type_id as nat, fields: values_view(self.fields@) }
    }
}

/// The records read by one deserialization. A nested record is stored
/// before the record that refers to it; the record read last, the root,
/// stands at the end.
#[derive(Debug, PartialEq, Eq)]
pub struct Document {
    pub records: Vec<Record>,
}

pub open spec fn records_view(v: Seq<Record>) -> Seq<RecordModel> {
    v.map_values(|r: Record| r@)
}

impl View for Document {
    type V = Seq<RecordModel>;

    open spec fn view(&self) -> Seq<RecordModel> {
        records_view(self.records@)
    }
}

impl Document {
    /// The root record, read last.
    pub fn root(&self) -> (r: &Record)
        requires
            self.records@.len() > 0,
        ensures
            r@ == self@.last(),
    {
        &self.records[self.records.len() - 1]
    }
}

} // verus!
