use vstd::prelude::*;
use crate::event::EventModel;
use crate::kind::{ItemKind, Role, ScalarKind, ValueKind};
use crate::schema::{DefaultModel, FieldView, TypeView};
use crate::text::spec_convert;
use crate::value::{ItemModel, RecordModel, ScalarModel, ValueModel};

verus! {

/// Why a deserialization failed.
#[derive(Debug, PartialEq, Eq)]
pub enum ParseError {
    /// A text token does not convert to the field's kind.
    Conversion,
    /// The element opening a record lacks a namespace URI its type requires.
    Namespace,
    /// An event of a kind that cannot stand where it was met.
    UnexpectedEvent,
    /// The stream ended before the record's closing tag.
    UnexpectedEof,
    /// Reading the nested record of the named field failed.
    Nested { field: String, inner: Box<ParseError> },
}

pub enum ErrorModel {
    Conversion,
    Namespace,
    UnexpectedEvent,
    UnexpectedEof,
    Nested { field: Seq<char>, inner: Box<ErrorModel> },
}

impl View for ParseError {
    type V = ErrorModel;

    open spec fn view(&self) -> ErrorModel
        decreases self,
    {
        match self {
            ParseError::Conversion => ErrorModel::Conversion,
            ParseError::Namespace => ErrorModel::Namespace,
            ParseError::UnexpectedEvent => ErrorModel::UnexpectedEvent,
            ParseError::UnexpectedEof => ErrorModel::UnexpectedEof,
            ParseError::Nested { field, inner } => ErrorModel::Nested {
                field: field@,
                inner: Box::new((**inner).view()),
            },
        }
    }
}

/// The zero value of a scalar kind.
pub open spec fn zero_scalar(k: ScalarKind) -> ScalarModel {
    match k {
        ScalarKind::Text => ScalarModel::Text(Seq::empty()),
        ScalarKind::Bool => ScalarModel::Bool(false),
        ScalarKind::Int8 => ScalarModel::I8(0),
        ScalarKind::Int16 => ScalarModel::I16(0),
        ScalarKind::Int32 => ScalarModel::I32(0),
        ScalarKind::Int64 => ScalarModel::I64(0),
        ScalarKind::UInt8 => ScalarModel::U8(0),
        ScalarKind::UInt16 => ScalarModel::U16(0),
        ScalarKind::UInt32 => ScalarModel::U32(0),
        ScalarKind::UInt64 => ScalarModel::U64(0),
    }
}

/// The items a list field starts with: the declared ones, else none.
pub open spec fn default_items(d: DefaultModel) -> Seq<ItemModel> {
    match d {
        DefaultModel::Items(items) => items.map_values(|s: ScalarModel| ItemModel::Scalar(s)),
        _ => Seq::empty(),
    }
}

/// Seeds the slots of the fields of type `t` from index `i` on with their
/// defaults, appending to `arena` the default records that single nested
/// record fields start with.
pub open spec fn seed(
    types: Seq<TypeView>,
    t: nat,
    i: nat,
    slots: Seq<ValueModel>,
    arena: Seq<RecordModel>,
) -> (Seq<ValueModel>, Seq<RecordModel>)
    decreases t, types[t as int].fields.len() - i, 1nat,
{
    let fields = types[t as int].fields;
    if i >= fields.len() {
        (slots, arena)
    } else {
        let (v, a2) = seed_value(types, t, fields[i as int], arena);
        seed(types, t, i + 1, slots.push(v), a2)
    }
}

/// The record that a declared record default stands for: one single scalar
/// per field of type `r`.
pub open spec fn fields_record(r: nat, values: Seq<ScalarModel>) -> RecordModel {
    RecordModel {
        type_id: r,
        fields: values.map_values(|s: ScalarModel| ValueModel::One(ItemModel::Scalar(s))),
    }
}

/// The slot that field `f` of type `t` starts with, and `arena` with the
/// records it refers to appended: the declared default, else the empty value
/// of the field's kind.
pub open spec fn seed_value(types: Seq<TypeView>, t: nat, f: FieldView, arena: Seq<RecordModel>) -> (
    ValueModel,
    Seq<RecordModel>,
)
    decreases t, 0nat, 0nat,
{
    match f.kind {
        ValueKind::One(ItemKind::Scalar(k)) => (
            ValueModel::One(
                ItemModel::Scalar(
                    match f.default {
                        DefaultModel::Literal(s) => s,
                        _ => zero_scalar(k),
                    },
                ),
            ),
            arena,
        ),
        ValueKind::One(ItemKind::Record(r)) => match f.default {
            DefaultModel::Fields(values) => (
                ValueModel::One(ItemModel::Record(arena.len())),
                arena.push(fields_record(r as nat, values)),
            ),
            _ => if r < t {
                let a2 = default_record(types, r as nat, arena);
                (ValueModel::One(ItemModel::Record((a2.len() - 1) as nat)), a2)
            } else {
                (ValueModel::One(ItemModel::Record(0)), arena)
            },
        },
        ValueKind::Optional(ItemKind::Record(r)) => match f.default {
            DefaultModel::Fields(values) => (
                ValueModel::Optional(Some(ItemModel::Record(arena.len()))),
                arena.push(fields_record(r as nat, values)),
            ),
            _ => (ValueModel::Optional(None), arena),
        },
        ValueKind::Optional(ItemKind::Scalar(_)) => (
            ValueModel::Optional(
                match f.default {
                    DefaultModel::Literal(s) => Some(ItemModel::Scalar(s)),
                    _ => None,
                },
            ),
            arena,
        ),
        ValueKind::List(_) => (ValueModel::List(default_items(f.default)), arena),
    }
}

/// Appends to `arena` the default record of type `t`, after the default
/// records it refers to.
pub open spec fn default_record(types: Seq<TypeView>, t: nat, arena: Seq<RecordModel>) -> Seq<
    RecordModel,
>
    decreases t, types[t as int].fields.len() + 1, 0nat,
{
    let (slots, a2) = seed(types, t, 0, Seq::empty(), arena);
    a2.push(RecordModel { type_id: t, fields: slots })
}

/// The first field from index `i` on with the given role and XML name.
pub open spec fn find_field(fields: Seq<FieldView>, role: Role, name: Seq<char>, i: nat) -> Option<
    nat,
>
    decreases fields.len() - i,
{
    if i >= fields.len() {
        None
    } else if fields[i as int].role == role && fields[i as int].xml_name == name {
        Some(i)
    } else {
        find_field(fields, role, name, i + 1)
    }
}

/// The first field from index `i` on that is read from text.
pub open spec fn find_text(fields: Seq<FieldView>, i: nat) -> Option<nat>
    decreases fields.len() - i,
{
    if i >= fields.len() {
        None
    } else if fields[i as int].role == Role::Text {
        Some(i)
    } else {
        find_text(fields, i + 1)
    }
}

/// The list items a slot holds; none if it holds no list.
pub open spec fn list_items(slot: ValueModel) -> Seq<ItemModel> {
    match slot {
        ValueModel::List(s) => s,
        _ => Seq::empty(),
    }
}

/// Stores an item in a slot of the given kind: a single field is
/// overwritten, an optional one becomes present, a list grows by one.
pub open spec fn assign(kind: ValueKind, slot: ValueModel, item: ItemModel) -> ValueModel {
    match kind {
        ValueKind::One(_) => ValueModel::One(item),
        ValueKind::Optional(_) => ValueModel::Optional(Some(item)),
        ValueKind::List(_) => ValueModel::List(list_items(slot).push(item)),
    }
}

/// Every required URI is the target of some namespace binding.
pub open spec fn namespaces_ok(required: Seq<Seq<char>>, ns: Seq<(Seq<char>, Seq<char>)>) -> bool {
    forall|u: int| 0 <= u < required.len() ==> binds_uri(ns, #[trigger] required[u])
}

/// Some namespace binding maps to `uri`.
pub open spec fn binds_uri(ns: Seq<(Seq<char>, Seq<char>)>, uri: Seq<char>) -> bool {
    exists|j: int| 0 <= j < ns.len() && #[trigger] ns[j].1 == uri
}

/// The records that an attribute value gives a single nested record field of
/// type `r`: the value is read as the whole content of an element of that
/// type with no attributes and no namespaces, appended to `arena`. An empty
/// value is an element with no content.
pub open spec fn inline_record(
    types: Seq<TypeView>,
    r: nat,
    text: Seq<char>,
    arena: Seq<RecordModel>,
) -> Result<Seq<RecordModel>, ErrorModel> {
    if !namespaces_ok(types[r as int].namespaces, Seq::empty()) {
        Err(ErrorModel::Namespace)
    } else {
        let (slots, a2) = seed(types, r, 0, Seq::empty(), arena);
        let fields = types[r as int].fields;
        let unchanged = a2.push(RecordModel { type_id: r, fields: slots });
        if text.len() == 0 {
            Ok(unchanged)
        } else {
            match find_text(fields, 0) {
                None => Ok(unchanged),
                Some(i) => match fields[i as int].kind.spec_item() {
                    ItemKind::Scalar(k) => match spec_convert(k, text) {
                        None => Err(ErrorModel::Conversion),
                        Some(s) => Ok(
                            a2.push(
                                RecordModel {
                                    type_id: r,
                                    fields: slots.update(
                                        i as int,
                                        assign(
                                            fields[i as int].kind,
                                            slots[i as int],
                                            ItemModel::Scalar(s),
                                        ),
                                    ),
                                },
                            ),
                        ),
                    },
                    ItemKind::Record(_) => Ok(unchanged),
                },
            }
        }
    }
}

/// Reads into attribute field `i` of type `t` every attribute from index `j`
/// on whose name is the field's, in attribute order: each value is converted
/// and stored, so the last one stays, and the first that fails ends the read
/// with its error. A nested record field takes the record that the value
/// gives, appended to `arena`.
pub open spec fn read_attribute_field(
    types: Seq<TypeView>,
    t: nat,
    i: nat,
    attrs: Seq<(Seq<char>, Seq<char>)>,
    j: nat,
    slots: Seq<ValueModel>,
    arena: Seq<RecordModel>,
) -> Result<(Seq<ValueModel>, Seq<RecordModel>), ErrorModel>
    decreases attrs.len() - j,
{
    let f = types[t as int].fields[i as int];
    if j >= attrs.len() {
        Ok((slots, arena))
    } else if attrs[j as int].0 != f.xml_name {
        read_attribute_field(types, t, i, attrs, j + 1, slots, arena)
    } else {
        let v = attrs[j as int].1;
        match f.kind.spec_item() {
            ItemKind::Scalar(k) => match spec_convert(k, v) {
                None => Err(ErrorModel::Conversion),
                Some(s) => read_attribute_field(
                    types,
                    t,
                    i,
                    attrs,
                    j + 1,
                    slots.update(i as int, assign(f.kind, slots[i as int], ItemModel::Scalar(s))),
                    arena,
                ),
            },
            ItemKind::Record(r) => match inline_record(types, r as nat, v, arena) {
                Err(e) => Err(ErrorModel::Nested { field: f.name, inner: Box::new(e) }),
                Ok(a2) => read_attribute_field(
                    types,
                    t,
                    i,
                    attrs,
                    j + 1,
                    slots.update(
                        i as int,
                        assign(f.kind, slots[i as int], ItemModel::Record((a2.len() - 1) as nat)),
                    ),
                    a2,
                ),
            },
        }
    }
}

/// Fills the attribute fields of type `t` from index `i` on from the
/// attributes of its start tag, field by field.
pub open spec fn apply_attributes(
    types: Seq<TypeView>,
    t: nat,
    attrs: Seq<(Seq<char>, Seq<char>)>,
    i: nat,
    slots: Seq<ValueModel>,
    arena: Seq<RecordModel>,
) -> Result<(Seq<ValueModel>, Seq<RecordModel>), ErrorModel>
    decreases types[t as int].fields.len() - i,
{
    if i >= types[t as int].fields.len() {
        Ok((slots, arena))
    } else if types[t as int].fields[i as int].role == Role::Attribute {
        match read_attribute_field(types, t, i, attrs, 0, slots, arena) {
            Err(e) => Err(e),
            Ok((s2, a2)) => apply_attributes(types, t, attrs, i + 1, s2, a2),
        }
    } else {
        apply_attributes(types, t, attrs, i + 1, slots, arena)
    }
}

/// The state of one record being read: its type, the name of the tag that
/// closes it, the field of the enclosing record it fills, and its slots.
pub struct FrameModel {
    pub ty: nat,
    pub closing: Seq<char>,
    pub field: nat,
    pub slots: Seq<ValueModel>,
}

/// Opens a record of type `t` on a start tag: checks its namespaces, seeds
/// the defaults, then reads the attribute fields.
pub open spec fn open_frame(
    types: Seq<TypeView>,
    t: nat,
    closing: Seq<char>,
    field: nat,
    attrs: Seq<(Seq<char>, Seq<char>)>,
    ns: Seq<(Seq<char>, Seq<char>)>,
    arena: Seq<RecordModel>,
) -> Result<(FrameModel, Seq<RecordModel>), ErrorModel> {
    if !namespaces_ok(types[t as int].namespaces, ns) {
        Err(ErrorModel::Namespace)
    } else {
        let (slots, a2) = seed(types, t, 0, Seq::empty(), arena);
        match apply_attributes(types, t, attrs, 0, slots, a2) {
            Err(e) => Err(e),
            Ok((s2, a3)) => Ok((FrameModel { ty: t, closing, field, slots: s2 }, a3)),
        }
    }
}

/// Reads the content of a scalar element as text, from `pos` on, with
/// `depth` start tags open inside the element and `acc` the text read so
/// far. Nested markup is read as an inline value: its tags are passed over
/// and its character data joins the text. The element ends at the end tag
/// met with no nested tag open, which must carry the element's name. Gives
/// the position after that end tag and the text.
pub open spec fn inline_text(
    ev: Seq<EventModel>,
    pos: nat,
    depth: nat,
    name: Seq<char>,
    acc: Seq<char>,
) -> Result<(nat, Seq<char>), ErrorModel>
    decreases ev.len() - pos,
{
    if pos >= ev.len() {
        Err(ErrorModel::UnexpectedEof)
    } else {
        match ev[pos as int] {
            EventModel::StartElement { .. } => inline_text(ev, pos + 1, depth + 1, name, acc),
            EventModel::Characters(t) => inline_text(ev, pos + 1, depth, name, acc + t),
            EventModel::EndElement { name: n } => if depth == 0 {
                if n == name {
                    Ok(((pos + 1) as nat, acc))
                } else {
                    Err(ErrorModel::UnexpectedEvent)
                }
            } else {
                inline_text(ev, pos + 1, (depth - 1) as nat, name, acc)
            },
            EventModel::Other => Err(ErrorModel::UnexpectedEvent),
        }
    }
}

/// Reads the value of a scalar element whose start tag stands at `pos`: its
/// whole content read as text (empty for an empty element), converted to the
/// field's kind. Gives the position after the element's end tag.
pub open spec fn read_scalar(ev: Seq<EventModel>, pos: nat, name: Seq<char>, k: ScalarKind) -> Result<
    (nat, ScalarModel),
    ErrorModel,
> {
    match inline_text(ev, pos + 1, 0, name, Seq::empty()) {
        Err(e) => Err(e),
        Ok((next_pos, t)) => match spec_convert(k, t) {
            None => Err(ErrorModel::Conversion),
            Some(s) => Ok((next_pos, s)),
        },
    }
}

/// Wraps an error met in the top frame of `stack` in one `Nested` layer for
/// each enclosing record, naming the field being read.
pub open spec fn wrap(types: Seq<TypeView>, stack: Seq<FrameModel>, e: ErrorModel) -> ErrorModel
    decreases stack.len(),
{
    if stack.len() <= 1 {
        e
    } else {
        let k = stack.len() - 1;
        let parent = stack[k - 1];
        wrap(
            types,
            stack.drop_last(),
            ErrorModel::Nested {
                field: types[parent.ty as int].fields[stack[k].field as int].name,
                inner: Box::new(e),
            },
        )
    }
}

pub enum StepModel {
    Continue(nat, Seq<FrameModel>, Seq<RecordModel>),
    Finish(Seq<RecordModel>),
    Fail(ErrorModel),
}

/// Sets slot `i` of the top frame to the given item.
pub open spec fn fill_top(
    types: Seq<TypeView>,
    stack: Seq<FrameModel>,
    i: nat,
    item: ItemModel,
) -> Seq<FrameModel> {
    let top = stack.last();
    let kind = types[top.ty as int].fields[i as int].kind;
    stack.update(
        stack.len() - 1,
        FrameModel { slots: top.slots.update(i as int, assign(kind, top.slots[i as int], item)), ..top },
    )
}

/// One transition of the reader on the event at `pos`, with `stack` the
/// records being read (the innermost last) and `arena` the records finished.
pub open spec fn step(
    types: Seq<TypeView>,
    ev: Seq<EventModel>,
    pos: nat,
    stack: Seq<FrameModel>,
    arena: Seq<RecordModel>,
) -> StepModel {
    let top = stack.last();
    let fields = types[top.ty as int].fields;
    if pos >= ev.len() {
        StepModel::Fail(wrap(types, stack, ErrorModel::UnexpectedEof))
    } else {
        match ev[pos as int] {
            EventModel::EndElement { name } => if name == top.closing {
                let a2 = arena.push(RecordModel { type_id: top.ty, fields: top.slots });
                if stack.len() <= 1 {
                    StepModel::Finish(a2)
                } else {
                    let rest = stack.drop_last();
                    StepModel::Continue(
                        pos + 1,
                        fill_top(types, rest, top.field, ItemModel::Record(arena.len())),
                        a2,
                    )
                }
            } else {
                StepModel::Continue(pos + 1, stack, arena)
            },
            EventModel::Characters(t) => match find_text(fields, 0) {
                None => StepModel::Continue(pos + 1, stack, arena),
                Some(i) => match fields[i as int].kind.spec_item() {
                    ItemKind::Scalar(k) => match spec_convert(k, t) {
                        None => StepModel::Fail(wrap(types, stack, ErrorModel::Conversion)),
                        Some(s) => StepModel::Continue(
                            pos + 1,
                            fill_top(types, stack, i, ItemModel::Scalar(s)),
                            arena,
                        ),
                    },
                    ItemKind::Record(_) => StepModel::Continue(pos + 1, stack, arena),
                },
            },
            EventModel::StartElement { name, attributes, namespaces } => match find_field(
                fields,
                Role::Element,
                name,
                0,
            ) {
                None => StepModel::Continue(pos + 1, stack, arena),
                Some(i) => match fields[i as int].kind.spec_item() {
                    ItemKind::Scalar(k) => match read_scalar(ev, pos, name, k) {
                        Err(e) => StepModel::Fail(wrap(types, stack, e)),
                        Ok((next_pos, s)) => StepModel::Continue(
                            next_pos,
                            fill_top(types, stack, i, ItemModel::Scalar(s)),
                            arena,
                        ),
                    },
                    ItemKind::Record(r) => match open_frame(
                        types,
                        r as nat,
                        name,
                        i,
                        attributes,
                        namespaces,
                        arena,
                    ) {
                        Err(e) => StepModel::Fail(
                            wrap(
                                types,
                                stack,
                                ErrorModel::Nested {
                                    field: fields[i as int].name,
                                    inner: Box::new(e),
                                },
                            ),
                        ),
                        Ok((fr, a2)) => StepModel::Continue(pos + 1, stack.push(fr), a2),
                    },
                },
            },
            EventModel::Other => StepModel::Fail(wrap(types, stack, ErrorModel::UnexpectedEvent)),
        }
    }
}

/// Runs the reader from `pos` until the outermost record closes or an error
/// occurs. Every transition consumes at least one event, so the run ends. On success: the position of the closing tag, left unconsumed,
/// and the finished records, the outermost last.
pub open spec fn run(
    types: Seq<TypeView>,
    ev: Seq<EventModel>,
    pos: nat,
    stack: Seq<FrameModel>,
    arena: Seq<RecordModel>,
) -> Result<(nat, Seq<RecordModel>), ErrorModel>
    decreases ev.len() - pos,
{
    match step(types, ev, pos, stack, arena) {
        StepModel::Continue(next_pos, s2, a2) => if pos < next_pos <= ev.len() {
            run(types, ev, next_pos, s2, a2)
        } else {
            Err(ErrorModel::UnexpectedEof)
        },
        StepModel::Finish(a) => Ok((pos, a)),
        StepModel::Fail(e) => Err(e),
    }
}

/// Reads one record of type `ty` from the events at `pos` on. If the event
/// there is a start tag, it opens the record: its name is the closing tag,
/// its namespaces are checked and its attributes read. Otherwise the reader
/// is already inside the record's element and closes at the type's root name.
pub open spec fn spec_deserialize(
    types: Seq<TypeView>,
    ty: nat,
    ev: Seq<EventModel>,
    pos: nat,
) -> Result<(nat, Seq<RecordModel>), ErrorModel> {
    let first = if pos < ev.len() {
        ev[pos as int]
    } else {
        EventModel::Other
    };
    if let EventModel::StartElement { name, attributes, namespaces } = first {
        match open_frame(types, ty, name, 0, attributes, namespaces, Seq::empty()) {
            Err(err) => Err(err),
            Ok((fr, a)) => run(types, ev, pos + 1, seq![fr], a),
        }
    } else {
        let (slots, a) = seed(types, ty, 0, Seq::empty(), Seq::empty());
        run(
            types,
            ev,
            pos,
            seq![FrameModel { ty, closing: types[ty as int].root, field: 0, slots }],
            a,
        )
    }
}

} // verus!
