use vstd::prelude::*;
use vstd::string::{StrSliceExecFns, StringExecFns};
use crate::event::{
    attributes_view, events_view, namespaces_view, Attribute, Event, EventCursor, Namespace,
};
use crate::kind::{ItemKind, Role, ScalarKind, ValueKind};
use crate::machine::{
    apply_attributes, assign, binds_uri, default_items, fields_record, seed_value, inline_record, inline_text, default_record, fill_top, find_field, find_text,
    list_items, read_attribute_field, namespaces_ok, open_frame, read_scalar, run, seed,
    spec_deserialize, wrap, zero_scalar, FrameModel, ParseError,
};
use crate::schema::{
    schema_view, schema_wf, FieldDefault, FieldDescriptor, TypeDescriptor, TypeView,
};
use crate::text::convert;
use crate::value::{records_view, values_view, Document, Item, ItemModel, Record, Scalar, Value};

verus! {

/// A record being read: its type, the tag that closes it, the field of the
/// enclosing record it fills, and its slots.
pub struct Frame {
    pub ty: usize,
    pub closing: String,
    pub field: usize,
    pub slots: Vec<Value>,
}

impl View for Frame {
    type V = FrameModel;

    open spec fn view(&self) -> FrameModel {
        FrameModel {
            ty: self.ty as nat,
            closing: self.closing@,
            field: self.field as nat,
            slots: values_view(self.slots@),
        }
    }
}

pub open spec fn frames_view(f: Seq<Frame>) -> Seq<FrameModel> {
    f.map_values(|x: Frame| x@)
}

/// Every frame is of a type of the schema and has one slot per field; every
/// inner frame fills a field of the frame around it.
pub open spec fn stack_wf(types: Seq<TypeView>, stack: Seq<FrameModel>) -> bool {
    &&& stack.len() >= 1
    &&& forall|k: int|
        0 <= k < stack.len() ==> #[trigger] stack[k].ty < types.len() && stack[k].slots.len()
            == types[stack[k].ty as int].fields.len()
    &&& forall|k: int|
        1 <= k < stack.len() ==> #[trigger] stack[k].field < types[stack[k - 1].ty as int].fields.len()
}

fn zero(k: ScalarKind) -> (r: Scalar)
    ensures
        r@ == zero_scalar(k),
{
    match k {
        ScalarKind::Text => Scalar::Text(String::new()),
        ScalarKind::Bool => Scalar::Bool(false),
        ScalarKind::Int8 => Scalar::I8(0),
        ScalarKind::Int16 => Scalar::I16(0),
        ScalarKind::Int32 => Scalar::I32(0),
        ScalarKind::Int64 => Scalar::I64(0),
        ScalarKind::UInt8 => Scalar::U8(0),
        ScalarKind::UInt16 => Scalar::U16(0),
        ScalarKind::UInt32 => Scalar::U32(0),
        ScalarKind::UInt64 => Scalar::U64(0),
    }
}

/// Fresh copies of the items a list field starts with.
fn starting_items(d: &FieldDefault) -> (r: Vec<Item>)
    ensures
        r@.map_values(|x: Item| x@) == default_items(d@),
{
    let mut out: Vec<Item> = Vec::new();
    match d {
        FieldDefault::Items(items) => {
            let ghost target = default_items(d@);
            let mut j: usize = 0;
            while j < items.len()
                invariant
                    target == items@.map_values(|x: Scalar| x@).map_values(
                        |s: crate::value::ScalarModel| ItemModel::Scalar(s),
                    ),
                    j <= items@.len(),
                    out@.map_values(|x: Item| x@) =~= target.subrange(0, j as int),
                decreases items@.len() - j,
            {
                let ghost before = out@.map_values(|x: Item| x@);
                out.push(Item::Scalar(items[j].duplicate()));
                assert(out@.map_values(|x: Item| x@) =~= before.push(target[j as int]));
                assert(target.subrange(0, j + 1 as int) =~= target.subrange(0, j as int).push(
                    target[j as int],
                ));
                j = j + 1;
            }
            assert(target.subrange(0, items@.len() as int) =~= target);
        },
        _ => {
            assert(out@.map_values(|x: Item| x@) =~= Seq::empty());
        },
    }
    out
}

/// The default slots of type `t`, appending to `arena` the default records
/// they refer to.
fn seed_slots(types: &Vec<TypeDescriptor>, t: usize, arena: &mut Vec<Record>) -> (slots: Vec<Value>)
    requires
        schema_wf(schema_view(types@)),
        t < types@.len(),
    ensures
        (values_view(slots@), records_view(final(arena)@)) == seed(
            schema_view(types@),
            t as nat,
            0,
            Seq::empty(),
            records_view(old(arena)@),
        ),
        slots@.len() == types@[t as int].fields@.len(),
    decreases t, 1nat,
{
    let ghost tv = schema_view(types@);
    let fields = &types[t].fields;
    let mut slots: Vec<Value> = Vec::new();
    let mut i: usize = 0;
    assert(tv[t as int] == types@[t as int]@);
    assert(values_view(slots@) =~= Seq::empty());
    while i < fields.len()
        invariant
            tv == schema_view(types@),
            schema_wf(tv),
            t < types@.len(),
            fields == &types@[t as int].fields,
            tv[t as int].fields == fields@.map_values(|f: FieldDescriptor| f@),
            i <= fields@.len(),
            slots@.len() == i,
            seed(tv, t as nat, i as nat, values_view(slots@), records_view(arena@)) == seed(
                tv,
                t as nat,
                0,
                Seq::empty(),
                records_view(old(arena)@),
            ),
        decreases fields@.len() - i,
    {
        let f = &fields[i];
        assert(tv[t as int].fields[i as int] == f@);
        assert(crate::schema::field_wf(tv.len(), t as nat, f@));
        assert(crate::schema::record_default_fits(tv, f@));
        let v = seed_value_of(types, t, f, arena);
        let ghost before = values_view(slots@);
        slots.push(v);
        assert(values_view(slots@) =~= before.push(v@));
        i = i + 1;
    }
    slots
}

/// The record that a declared record default stands for.
fn record_of_values(r: usize, values: &Vec<Scalar>) -> (rec: Record)
    ensures
        rec@ == fields_record(r as nat, values@.map_values(|x: Scalar| x@)),
{
    let ghost target = fields_record(r as nat, values@.map_values(|x: Scalar| x@)).fields;
    let mut fields: Vec<Value> = Vec::new();
    let mut j: usize = 0;
    while j < values.len()
        invariant
            target == fields_record(r as nat, values@.map_values(|x: Scalar| x@)).fields,
            target.len() == values@.len(),
            j <= values@.len(),
            values_view(fields@) =~= target.subrange(0, j as int),
        decreases values@.len() - j,
    {
        let ghost before = values_view(fields@);
        let v = Value::One(Item::Scalar(values[j].duplicate()));
        assert(v@ == target[j as int]);
        fields.push(v);
        assert(values_view(fields@) =~= before.push(target[j as int]));
        assert(target.subrange(0, j + 1 as int) =~= target.subrange(0, j as int).push(
            target[j as int],
        ));
        j = j + 1;
    }
    assert(target.subrange(0, values@.len() as int) =~= target);
    Record { type_id: r, fields }
}

/// The slot that field `f` of type `t` starts with, appending to `arena`
/// the records it refers to.
fn seed_value_of(types: &Vec<TypeDescriptor>, t: usize, f: &FieldDescriptor, arena: &mut Vec<Record>) -> (v: Value)
    requires
        schema_wf(schema_view(types@)),
        t < types@.len(),
        crate::schema::field_wf(types@.len() as nat, t as nat, f@),
        crate::schema::record_default_fits(schema_view(types@), f@),
    ensures
        (v@, records_view(final(arena)@)) == seed_value(
            schema_view(types@),
            t as nat,
            f@,
            records_view(old(arena)@),
        ),
    decreases t, 0nat,
{
    let ghost before = records_view(arena@);
    match f.kind {
        ValueKind::One(ItemKind::Scalar(k)) => match &f.default {
            FieldDefault::Literal(s) => Value::One(Item::Scalar(s.duplicate())),
            _ => Value::One(Item::Scalar(zero(k))),
        },
        ValueKind::One(ItemKind::Record(r)) => match &f.default {
            FieldDefault::Fields(values) => {
                let idx = arena.len();
                let rec = record_of_values(r, values);
                let ghost rv = rec@;
                arena.push(rec);
                assert(records_view(arena@) =~= before.push(rv));
                Value::One(Item::Record(idx))
            },
            _ => {
                assert(r < t);
                push_default_record(types, r, arena);
                assert(records_view(arena@).len() > 0);
                Value::One(Item::Record(arena.len() - 1))
            },
        },
        ValueKind::Optional(ItemKind::Record(r)) => match &f.default {
            FieldDefault::Fields(values) => {
                let idx = arena.len();
                let rec = record_of_values(r, values);
                let ghost rv = rec@;
                arena.push(rec);
                assert(records_view(arena@) =~= before.push(rv));
                Value::Optional(Some(Item::Record(idx)))
            },
            _ => Value::Optional(None),
        },
        ValueKind::Optional(ItemKind::Scalar(_)) => match &f.default {
            FieldDefault::Literal(s) => Value::Optional(Some(Item::Scalar(s.duplicate()))),
            _ => Value::Optional(None),
        },
        ValueKind::List(_) => Value::List(starting_items(&f.default)),
    }
}

/// Appends the default record of type `t` to `arena`, after the default
/// records it refers to.
fn push_default_record(types: &Vec<TypeDescriptor>, t: usize, arena: &mut Vec<Record>)
    requires
        schema_wf(schema_view(types@)),
        t < types@.len(),
    ensures
        records_view(final(arena)@) == default_record(
            schema_view(types@),
            t as nat,
            records_view(old(arena)@),
        ),
    decreases t, 2nat,
{
    let slots = seed_slots(types, t, arena);
    let ghost before = records_view(arena@);
    let rec = Record { type_id: t, fields: slots };
    arena.push(rec);
    assert(records_view(arena@) =~= before.push(rec@));
}

pub open spec fn fields_view(fields: Seq<FieldDescriptor>) -> Seq<crate::schema::FieldView> {
    fields.map_values(|f: FieldDescriptor| f@)
}

/// The first field with the given role and XML name.
fn find_named(fields: &Vec<FieldDescriptor>, role: Role, name: &String) -> (r: Option<usize>)
    ensures
        r matches Some(i) ==> i < fields@.len(),
        match r {
            Some(i) => find_field(fields_view(fields@), role, name@, 0) == Some(i as nat),
            None => find_field(fields_view(fields@), role, name@, 0) is None,
        },
{
    let ghost fv = fields_view(fields@);
    let mut i: usize = 0;
    while i < fields.len()
        invariant
            fv == fields_view(fields@),
            i <= fields@.len(),
            find_field(fv, role, name@, i as nat) == find_field(fv, role, name@, 0),
        decreases fields@.len() - i,
    {
        assert(fv[i as int] == fields@[i as int]@);
        if fields[i].role == role && fields[i].xml_name == *name {
            return Some(i);
        }
        i = i + 1;
    }
    None
}

/// The first field read from text.
fn find_text_field(fields: &Vec<FieldDescriptor>) -> (r: Option<usize>)
    ensures
        r matches Some(i) ==> i < fields@.len(),
        match r {
            Some(i) => find_text(fields_view(fields@), 0) == Some(i as nat),
            None => find_text(fields_view(fields@), 0) is None,
        },
{
    let ghost fv = fields_view(fields@);
    let mut i: usize = 0;
    while i < fields.len()
        invariant
            fv == fields_view(fields@),
            i <= fields@.len(),
            find_text(fv, i as nat) == find_text(fv, 0),
        decreases fields@.len() - i,
    {
        assert(fv[i as int] == fields@[i as int]@);
        if fields[i].role == Role::Text {
            return Some(i);
        }
        i = i + 1;
    }
    None
}

/// Stores an item in a slot of the given kind.
fn assign_item(kind: ValueKind, slot: Value, item: Item) -> (r: Value)
    ensures
        r@ == assign(kind, slot@, item@),
{
    match kind {
        ValueKind::One(_) => Value::One(item),
        ValueKind::Optional(_) => Value::Optional(Some(item)),
        ValueKind::List(_) => {
            let ghost old_items = list_items(slot@);
            let mut items = match slot {
                Value::List(v) => v,
                _ => {
                    let v: Vec<Item> = Vec::new();
                    assert(v@.map_values(|x: Item| x@) =~= Seq::empty());
                    v
                },
            };
            assert(items@.map_values(|x: Item| x@) == old_items);
            let ghost before = items@;
            items.push(item);
            assert(items@.map_values(|x: Item| x@) =~= before.map_values(|x: Item| x@).push(item@));
            Value::List(items)
        },
    }
}

/// Replaces slot `i` by the item stored into it.
fn fill_slot(slots: &mut Vec<Value>, i: usize, kind: ValueKind, item: Item)
    requires
        i < old(slots)@.len(),
    ensures
        final(slots)@.len() == old(slots)@.len(),
        values_view(final(slots)@) == values_view(old(slots)@).update(
            i as int,
            assign(kind, values_view(old(slots)@)[i as int], item@),
        ),
{
    let mut slot = Value::Optional(None);
    std::mem::swap(&mut slots[i], &mut slot);
    let ghost mid = slots@;
    let v = assign_item(kind, slot, item);
    slots[i] = v;
    assert(values_view(slots@) =~= values_view(old(slots)@).update(
        i as int,
        assign(kind, values_view(old(slots)@)[i as int], item@),
    ));
}

/// Whether every required URI is bound by some namespace.
fn namespaces_present(required: &Vec<String>, ns: &Vec<Namespace>) -> (r: bool)
    ensures
        r == namespaces_ok(required@.map_values(|s: String| s@), namespaces_view(ns@)),
{
    let ghost req = required@.map_values(|s: String| s@);
    let ghost nv = namespaces_view(ns@);
    let mut u: usize = 0;
    while u < required.len()
        invariant
            req == required@.map_values(|s: String| s@),
            nv == namespaces_view(ns@),
            u <= required@.len(),
            forall|x: int| 0 <= x < u ==> binds_uri(nv, #[trigger] req[x]),
        decreases required@.len() - u,
    {
        let mut found = false;
        let mut j: usize = 0;
        while j < ns.len()
            invariant
                req == required@.map_values(|s: String| s@),
                nv == namespaces_view(ns@),
                u < required@.len(),
                j <= ns@.len(),
                found ==> binds_uri(nv, req[u as int]),
                !found ==> forall|y: int| 0 <= y < j ==> #[trigger] nv[y].1 != req[u as int],
            decreases ns@.len() - j,
        {
            if ns[j].uri == required[u] {
                assert(nv[j as int].1 == req[u as int]);
                found = true;
            }
            j = j + 1;
        }
        if !found {
            assert(!binds_uri(nv, req[u as int]));
            return false;
        }
        u = u + 1;
    }
    true
}

/// Appends the record that an attribute value gives a single nested record
/// field of type `r`.
fn push_inline_record(
    types: &Vec<TypeDescriptor>,
    r: usize,
    text: &String,
    arena: &mut Vec<Record>,
) -> (res: Result<(), ParseError>)
    requires
        schema_wf(schema_view(types@)),
        r < types@.len(),
    ensures
        match inline_record(schema_view(types@), r as nat, text@, records_view(old(arena)@)) {
            Ok(a) => res is Ok && records_view(final(arena)@) == a,
            Err(e) => res is Err && res->Err_0@ == e,
        },
{
    let ghost tv = schema_view(types@);
    assert(tv[r as int] == types@[r as int]@);
    let required = &types[r].namespaces;
    if required.len() > 0 {
        assert(!binds_uri(Seq::empty(), tv[r as int].namespaces[0]));
        return Err(ParseError::Namespace);
    }
    let mut slots = seed_slots(types, r, arena);
    let fields = &types[r].fields;
    if text.as_str().unicode_len() > 0 {
        match find_text_field(fields) {
            None => {},
            Some(i) => {
                let kind = fields[i].kind;
                match kind.item() {
                    ItemKind::Scalar(k) => match convert(k, text.as_str()) {
                        None => {
                            return Err(ParseError::Conversion);
                        },
                        Some(v) => {
                            fill_slot(&mut slots, i, kind, Item::Scalar(v));
                        },
                    },
                    ItemKind::Record(_) => {},
                }
            },
        }
    }
    let rec = Record { type_id: r, fields: slots };
    let ghost before = records_view(arena@);
    let ghost rv = rec@;
    arena.push(rec);
    assert(records_view(arena@) =~= before.push(rv));
    Ok(())
}

/// Reads into attribute field `i` of type `t` every attribute of the start
/// tag that has the field's name, in order.
fn read_attr_field(
    types: &Vec<TypeDescriptor>,
    t: usize,
    i: usize,
    attrs: &Vec<Attribute>,
    slots: &mut Vec<Value>,
    arena: &mut Vec<Record>,
) -> (r: Result<(), ParseError>)
    requires
        schema_wf(schema_view(types@)),
        t < types@.len(),
        i < types@[t as int].fields@.len(),
        old(slots)@.len() == types@[t as int].fields@.len(),
    ensures
        final(slots)@.len() == old(slots)@.len(),
        match read_attribute_field(
            schema_view(types@),
            t as nat,
            i as nat,
            attributes_view(attrs@),
            0,
            values_view(old(slots)@),
            records_view(old(arena)@),
        ) {
            Ok((s, a)) => r is Ok && values_view(final(slots)@) == s && records_view(final(arena)@)
                == a,
            Err(e) => r is Err && r->Err_0@ == e,
        },
{
    let ghost tv = schema_view(types@);
    let ghost av = attributes_view(attrs@);
    assert(tv[t as int] == types@[t as int]@);
    let f = &types[t].fields[i];
    assert(tv[t as int].fields[i as int] == f@);
    assert(crate::schema::field_wf(tv.len(), t as nat, f@));
    let mut j: usize = 0;
    while j < attrs.len()
        invariant
            tv == schema_view(types@),
            schema_wf(tv),
            t < types@.len(),
            i < types@[t as int].fields@.len(),
            f == &types@[t as int].fields@[i as int],
            tv[t as int].fields[i as int] == f@,
            crate::schema::field_wf(tv.len(), t as nat, f@),
            av == attributes_view(attrs@),
            j <= attrs@.len(),
            slots@.len() == old(slots)@.len(),
            old(slots)@.len() == types@[t as int].fields@.len(),
            read_attribute_field(
                tv,
                t as nat,
                i as nat,
                av,
                j as nat,
                values_view(slots@),
                records_view(arena@),
            ) == read_attribute_field(
                tv,
                t as nat,
                i as nat,
                av,
                0,
                values_view(old(slots)@),
                records_view(old(arena)@),
            ),
        decreases attrs@.len() - j,
    {
        assert(av[j as int] == (attrs@[j as int].name@, attrs@[j as int].value@));
        if attrs[j].name == f.xml_name {
            match f.kind.item() {
                ItemKind::Scalar(k) => match convert(k, attrs[j].value.as_str()) {
                    None => {
                        return Err(ParseError::Conversion);
                    },
                    Some(v) => {
                        fill_slot(slots, i, f.kind, Item::Scalar(v));
                    },
                },
                ItemKind::Record(r) => match push_inline_record(types, r, &attrs[j].value, arena) {
                    Err(e) => {
                        return Err(ParseError::Nested { field: f.name.clone(), inner: Box::new(e) });
                    },
                    Ok(()) => {
                        let idx = arena.len() - 1;
                        fill_slot(slots, i, f.kind, Item::Record(idx));
                    },
                },
            }
        }
        j = j + 1;
    }
    Ok(())
}

/// Fills the attribute fields of type `t` from the attributes of its start
/// tag.
fn apply_attrs(
    types: &Vec<TypeDescriptor>,
    t: usize,
    attrs: &Vec<Attribute>,
    slots: &mut Vec<Value>,
    arena: &mut Vec<Record>,
) -> (r: Result<(), ParseError>)
    requires
        schema_wf(schema_view(types@)),
        t < types@.len(),
        old(slots)@.len() == types@[t as int].fields@.len(),
    ensures
        final(slots)@.len() == old(slots)@.len(),
        match apply_attributes(
            schema_view(types@),
            t as nat,
            attributes_view(attrs@),
            0,
            values_view(old(slots)@),
            records_view(old(arena)@),
        ) {
            Ok((s, a)) => r is Ok && values_view(final(slots)@) == s && records_view(final(arena)@)
                == a,
            Err(e) => r is Err && r->Err_0@ == e,
        },
{
    let ghost tv = schema_view(types@);
    let ghost av = attributes_view(attrs@);
    assert(tv[t as int] == types@[t as int]@);
    let fields = &types[t].fields;
    let mut i: usize = 0;
    while i < fields.len()
        invariant
            tv == schema_view(types@),
            schema_wf(tv),
            t < types@.len(),
            fields == &types@[t as int].fields,
            tv[t as int].fields == fields_view(fields@),
            av == attributes_view(attrs@),
            i <= fields@.len(),
            slots@.len() == fields@.len(),
            old(slots)@.len() == fields@.len(),
            apply_attributes(tv, t as nat, av, i as nat, values_view(slots@), records_view(arena@))
                == apply_attributes(
                tv,
                t as nat,
                av,
                0,
                values_view(old(slots)@),
                records_view(old(arena)@),
            ),
        decreases fields@.len() - i,
    {
        let f = &fields[i];
        assert(tv[t as int].fields[i as int] == f@);
        if f.role == Role::Attribute {
            match read_attr_field(types, t, i, attrs, slots, arena) {
                Err(e) => {
                    return Err(e);
                },
                Ok(()) => {},
            }
        }
        i = i + 1;
    }
    Ok(())
}

/// Opens a record of type `t` on a start tag.
fn open_record(
    types: &Vec<TypeDescriptor>,
    t: usize,
    closing: String,
    field: usize,
    attrs: &Vec<Attribute>,
    ns: &Vec<Namespace>,
    arena: &mut Vec<Record>,
) -> (r: Result<Frame, ParseError>)
    requires
        schema_wf(schema_view(types@)),
        t < types@.len(),
    ensures
        match open_frame(
            schema_view(types@),
            t as nat,
            closing@,
            field as nat,
            attributes_view(attrs@),
            namespaces_view(ns@),
            records_view(old(arena)@),
        ) {
            Ok((fr, a)) => r is Ok && r->Ok_0@ == fr && records_view(final(arena)@) == a
                && r->Ok_0.slots@.len() == types@[t as int].fields@.len(),
            Err(e) => r is Err && r->Err_0@ == e,
        },
{
    let ghost tv = schema_view(types@);
    assert(tv[t as int] == types@[t as int]@);
    if !namespaces_present(&types[t].namespaces, ns) {
        return Err(ParseError::Namespace);
    }
    let mut slots = seed_slots(types, t, arena);
    match apply_attrs(types, t, attrs, &mut slots, arena) {
        Err(e) => Err(e),
        Ok(()) => Ok(Frame { ty: t, closing, field, slots }),
    }
}

/// Reads the value of a scalar element whose start tag is the next event:
/// all of its content, nested markup included, read as text.
fn read_scalar_value(cursor: &mut EventCursor, name: &String, k: ScalarKind) -> (r: Result<
    Scalar,
    ParseError,
>)
    requires
        old(cursor).wf(),
        old(cursor).position() < old(cursor).events().len(),
    ensures
        final(cursor).wf(),
        final(cursor).events() == old(cursor).events(),
        final(cursor).position() > old(cursor).position(),
        final(cursor).position() <= final(cursor).events().len(),
        match read_scalar(old(cursor).events(), old(cursor).position(), name@, k) {
            Ok((next_pos, s)) => r is Ok && r->Ok_0@ == s && final(cursor).position() == next_pos,
            Err(e) => r is Err && r->Err_0@ == e,
        },
{
    let ghost ev = cursor.events();
    let ghost start = cursor.position();
    cursor.advance();
    let mut text = String::new();
    let mut depth: usize = 0;
    loop
        invariant
            cursor.wf(),
            cursor.events() == ev,
            ev == old(cursor).events(),
            start == old(cursor).position(),
            cursor.position() > start,
            depth <= cursor.position(),
            inline_text(ev, cursor.position(), depth as nat, name@, text@) == inline_text(
                ev,
                start + 1,
                0,
                name@,
                Seq::empty(),
            ),
        decreases ev.len() - cursor.position(),
    {
        match cursor.peek() {
            None => {
                return Err(ParseError::UnexpectedEof);
            },
            Some(Event::StartElement { .. }) => {
                depth = depth + 1;
            },
            Some(Event::Characters(t)) => {
                text.append(t.as_str());
            },
            Some(Event::EndElement { name: n }) => {
                if depth == 0 {
                    if *n != *name {
                        return Err(ParseError::UnexpectedEvent);
                    }
                    cursor.advance();
                    proof {
                        cursor.lemma_position_bound();
                    }
                    return match convert(k, text.as_str()) {
                        None => Err(ParseError::Conversion),
                        Some(v) => Ok(v),
                    };
                }
                depth = depth - 1;
            },
            Some(Event::Other) => {
                return Err(ParseError::UnexpectedEvent);
            },
        }
        cursor.advance();
    }
}

/// Wraps an error met in the innermost record in one `Nested` layer per
/// enclosing record.
fn wrap_error(
    types: &Vec<TypeDescriptor>,
    parents: &Vec<Frame>,
    current: &Frame,
    e: ParseError,
) -> (r: ParseError)
    requires
        stack_wf(schema_view(types@), frames_view(parents@).push(current@)),
    ensures
        r@ == wrap(schema_view(types@), frames_view(parents@).push(current@), e@),
{
    let ghost tv = schema_view(types@);
    let ghost stack = frames_view(parents@).push(current@);
    if parents.len() == 0 {
        return e;
    }
    let last = parents.len() - 1;
    assert(stack[last as int] == parents@[last as int]@);
    assert(stack[last as int + 1] == current@);
    assert(tv[parents@[last as int].ty as int] == types@[parents@[last as int].ty as int]@);
    let mut err = ParseError::Nested {
        field: types[parents[last].ty].fields[current.field].name.clone(),
        inner: Box::new(e),
    };
    assert(stack.drop_last() =~= stack.subrange(0, last + 1));
    let mut k: usize = last;
    while k > 0
        invariant
            tv == schema_view(types@),
            stack == frames_view(parents@).push(current@),
            stack_wf(tv, stack),
            k < parents@.len(),
            wrap(tv, stack, e@) == wrap(tv, stack.subrange(0, k + 1), err@),
        decreases k,
    {
        let ghost sub = stack.subrange(0, k + 1);
        assert(sub.drop_last() =~= stack.subrange(0, k as int));
        assert(stack[k as int] == parents@[k as int]@);
        assert(stack[k - 1] == parents@[k - 1]@);
        assert(tv[parents@[k - 1].ty as int] == types@[parents@[k - 1].ty as int]@);
        err = ParseError::Nested {
            field: types[parents[k - 1].ty].fields[parents[k].field].name.clone(),
            inner: Box::new(err),
        };
        k = k - 1;
    }
    err
}

/// Reads one record of type `ty` from the cursor, as `spec_deserialize`
/// states: on success the cursor rests on the record's closing tag, and the
/// document holds the record last, after the nested records it refers to.
pub fn deserialize(cursor: &mut EventCursor, types: &Vec<TypeDescriptor>, ty: usize) -> (r: Result<
    Document,
    ParseError,
>)
    requires
        old(cursor).wf(),
        schema_wf(schema_view(types@)),
        ty < types@.len(),
    ensures
        final(cursor).wf(),
        final(cursor).events() == old(cursor).events(),
        match spec_deserialize(
            schema_view(types@),
            ty as nat,
            old(cursor).events(),
            old(cursor).position(),
        ) {
            Ok((p, a)) => r is Ok && r->Ok_0@ == a && final(cursor).position() == p,
            Err(e) => r is Err && r->Err_0@ == e,
        },
{
    let ghost tv = schema_view(types@);
    let ghost ev = cursor.events();
    let ghost target = spec_deserialize(tv, ty as nat, ev, cursor.position());
    let mut arena: Vec<Record> = Vec::new();
    let mut parents: Vec<Frame> = Vec::new();
    assert(records_view(arena@) =~= Seq::empty());
    assert(frames_view(parents@) =~= Seq::empty());
    assert(tv[ty as int] == types@[ty as int]@);
    let mut opened = false;
    let mut current = match cursor.peek() {
        Some(Event::StartElement { name, attributes, namespaces }) => {
            opened = true;
            match open_record(types, ty, name.clone(), 0, attributes, namespaces, &mut arena) {
                Err(e) => {
                    return Err(e);
                },
                Ok(fr) => fr,
            }
        },
        _ => {
            let slots = seed_slots(types, ty, &mut arena);
            Frame { ty, closing: types[ty].root.clone(), field: 0, slots }
        },
    };
    if opened {
        cursor.advance();
    }
    assert(frames_view(parents@).push(current@) =~= seq![current@]);
    loop
        invariant
            cursor.wf(),
            cursor.events() == ev,
            ev == old(cursor).events(),
            target == spec_deserialize(tv, ty as nat, ev, old(cursor).position()),
            tv == schema_view(types@),
            schema_wf(tv),
            stack_wf(tv, frames_view(parents@).push(current@)),
            run(tv, ev, cursor.position(), frames_view(parents@).push(current@), records_view(arena@))
                == target,
        decreases ev.len() - cursor.position(),
    {
        let ghost pos = cursor.position();
        let ghost stack = frames_view(parents@).push(current@);
        let ghost a0 = records_view(arena@);
        assert(stack.last() == current@);
        assert(stack[stack.len() - 1] == current@);
        assert(current.ty < types@.len());
        assert(tv[current.ty as int] == types@[current.ty as int]@);
        assert(fields_view(types@[current.ty as int].fields@) == tv[current.ty as int].fields);
        match cursor.peek() {
            None => {
                return Err(wrap_error(types, &parents, &current, ParseError::UnexpectedEof));
            },
            Some(Event::Other) => {
                return Err(wrap_error(types, &parents, &current, ParseError::UnexpectedEvent));
            },
            Some(Event::EndElement { name }) => {
                if *name == current.closing {
                    if parents.len() == 0 {
                        let rec = Record { type_id: current.ty, fields: current.slots };
                        let ghost rv = rec@;
                        arena.push(rec);
                        assert(records_view(arena@) =~= a0.push(rv));
                        return Ok(Document { records: arena });
                    }
                    let mut frame = parents.pop().unwrap();
                    assert(frames_view(parents@) =~= stack.drop_last().drop_last());
                    std::mem::swap(&mut frame, &mut current);
                    let idx = arena.len();
                    let field = frame.field;
                    assert(stack.drop_last().last() == current@);
                    assert(stack[stack.len() - 2] == current@);
                    assert(tv[current.ty as int] == types@[current.ty as int]@);
                    let kind = types[current.ty].fields[field].kind;
                    let rec = Record { type_id: frame.ty, fields: frame.slots };
                    let ghost rv = rec@;
                    arena.push(rec);
                    assert(records_view(arena@) =~= a0.push(rv));
                    fill_slot(&mut current.slots, field, kind, Item::Record(idx));
                    assert(frames_view(parents@).push(current@) =~= fill_top(
                        tv,
                        stack.drop_last(),
                        field as nat,
                        ItemModel::Record(a0.len()),
                    ));
                    cursor.advance();
                } else {
                    cursor.advance();
                }
            },
            Some(Event::Characters(t)) => {
                let fields = &types[current.ty].fields;
                match find_text_field(fields) {
                    None => {},
                    Some(i) => {
                        let kind = fields[i].kind;
                        match kind.item() {
                            ItemKind::Scalar(k) => match convert(k, t.as_str()) {
                                None => {
                                    return Err(
                                        wrap_error(types, &parents, &current, ParseError::Conversion),
                                    );
                                },
                                Some(v) => {
                                    let ghost vv = v@;
                                    fill_slot(&mut current.slots, i, kind, Item::Scalar(v));
                                    assert(frames_view(parents@).push(current@) =~= fill_top(
                                        tv,
                                        stack,
                                        i as nat,
                                        ItemModel::Scalar(vv),
                                    ));
                                },
                            },
                            ItemKind::Record(_) => {},
                        }
                    },
                }
                cursor.advance();
            },
            Some(Event::StartElement { name, attributes, namespaces }) => {
                let fields = &types[current.ty].fields;
                match find_named(fields, Role::Element, name) {
                    None => {
                        cursor.advance();
                    },
                    Some(i) => {
                        let kind = fields[i].kind;
                        match kind.item() {
                            ItemKind::Scalar(k) => {
                                let element = name.clone();
                                match read_scalar_value(cursor, &element, k) {
                                    Err(e) => {
                                        return Err(wrap_error(types, &parents, &current, e));
                                    },
                                    Ok(v) => {
                                        let ghost vv = v@;
                                        fill_slot(&mut current.slots, i, kind, Item::Scalar(v));
                                        assert(frames_view(parents@).push(current@) =~= fill_top(
                                            tv,
                                            stack,
                                            i as nat,
                                            ItemModel::Scalar(vv),
                                        ));
                                    },
                                }
                            },
                            ItemKind::Record(r) => {
                                assert(crate::schema::field_wf(
                                    tv.len(),
                                    current.ty as nat,
                                    tv[current.ty as int].fields[i as int],
                                ));
                                match open_record(
                                    types,
                                    r,
                                    name.clone(),
                                    i,
                                    attributes,
                                    namespaces,
                                    &mut arena,
                                ) {
                                    Err(e) => {
                                        let err = ParseError::Nested {
                                            field: fields[i].name.clone(),
                                            inner: Box::new(e),
                                        };
                                        return Err(wrap_error(types, &parents, &current, err));
                                    },
                                    Ok(fr) => {
                                        parents.push(current);
                                        current = fr;
                                        assert(frames_view(parents@).push(current@) =~= stack.push(
                                            current@,
                                        ));
                                        cursor.advance();
                                    },
                                }
                            },
                        }
                    },
                }
            },
        }
    }
}

/// Reads one record of type `ty` from a whole stream of events.
pub fn parse(events: Vec<Event>, types: &Vec<TypeDescriptor>, ty: usize) -> (r: Result<
    Document,
    ParseError,
>)
    requires
        schema_wf(schema_view(types@)),
        ty < types@.len(),
    ensures
        match spec_deserialize(schema_view(types@), ty as nat, events_view(events@), 0) {
            Ok((_, a)) => r is Ok && r->Ok_0@ == a,
            Err(e) => r is Err && r->Err_0@ == e,
        },
{
    let mut cursor = EventCursor::new(events);
    deserialize(&mut cursor, types, ty)
}

} // verus!
