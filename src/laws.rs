use vstd::prelude::*;
use crate::event::EventModel;
use crate::kind::{ItemKind, Role, ValueKind};
use crate::machine::{
    apply_attributes, assign, find_field, inline_text, list_items, namespaces_ok, run, seed,
    spec_deserialize, step, FrameModel, StepModel,
};
use crate::schema::{schema_wf, DefaultModel, FieldView, TypeView};
use crate::text::spec_convert;
use crate::value::{ItemModel, RecordModel, ValueModel};

verus! {

/// A start tag with no attributes and no namespaces.
pub open spec fn bare_start(name: Seq<char>) -> EventModel {
    EventModel::StartElement { name, attributes: Seq::empty(), namespaces: Seq::empty() }
}

/// An end tag.
pub open spec fn end_tag(name: Seq<char>) -> EventModel {
    EventModel::EndElement { name }
}

/// The only frame of a reader inside the element that opened a record.
pub open spec fn outer_frame(t: nat, root: Seq<char>, slots: Seq<ValueModel>) -> FrameModel {
    FrameModel { ty: t, closing: root, field: 0, slots }
}

/// The events of an element that holds only a text value.
pub open spec fn child_events(name: Seq<char>, text: Seq<char>) -> Seq<EventModel> {
    seq![
        EventModel::StartElement { name, attributes: Seq::empty(), namespaces: Seq::empty() },
        EventModel::Characters(text),
        EventModel::EndElement { name },
    ]
}

/// The events of a run of text-valued child elements, given as pairs of an
/// element name and its text.
pub open spec fn children_events(children: Seq<(Seq<char>, Seq<char>)>) -> Seq<EventModel>
    decreases children.len(),
{
    if children.len() == 0 {
        Seq::empty()
    } else {
        children_events(children.drop_last()) + child_events(
            children.last().0,
            children.last().1,
        )
    }
}

/// The events of an element named `root`, with no attributes or namespaces,
/// whose content is the given text-valued children.
pub open spec fn element_events(root: Seq<char>, children: Seq<(Seq<char>, Seq<char>)>) -> Seq<
    EventModel,
> {
    seq![EventModel::StartElement { name: root, attributes: Seq::empty(), namespaces: Seq::empty() }]
        + children_events(children) + seq![EventModel::EndElement { name: root }]
}

/// A child element is read into a scalar element field of the record, and
/// its text converts to that field's kind.
pub open spec fn child_ok(fields: Seq<FieldView>, child: (Seq<char>, Seq<char>)) -> bool {
    match find_field(fields, Role::Element, child.0, 0) {
        Some(i) => match fields[i as int].kind.spec_item() {
            ItemKind::Scalar(k) => spec_convert(k, child.1) is Some,
            ItemKind::Record(_) => false,
        },
        None => false,
    }
}

/// The slots after one scalar child element has been read into them.
pub open spec fn apply_child(
    fields: Seq<FieldView>,
    slots: Seq<ValueModel>,
    child: (Seq<char>, Seq<char>),
) -> Seq<ValueModel> {
    let i = find_field(fields, Role::Element, child.0, 0)->0;
    let k = fields[i as int].kind.spec_item()->Scalar_0;
    slots.update(
        i as int,
        assign(fields[i as int].kind, slots[i as int], ItemModel::Scalar(spec_convert(k, child.1)->0)),
    )
}

/// The slots after the children from index `m` on have been read, in order.
pub open spec fn apply_children(
    fields: Seq<FieldView>,
    slots: Seq<ValueModel>,
    children: Seq<(Seq<char>, Seq<char>)>,
    m: nat,
) -> Seq<ValueModel>
    decreases children.len() - m,
{
    if m >= children.len() {
        slots
    } else {
        apply_children(fields, apply_child(fields, slots, children[m as int]), children, m + 1)
    }
}

proof fn lemma_children_events(children: Seq<(Seq<char>, Seq<char>)>, j: int)
    requires
        0 <= j < children.len(),
    ensures
        children_events(children).len() == 3 * children.len(),
        children_events(children)[3 * j] == bare_start(children[j].0),
        children_events(children)[3 * j + 1] == EventModel::Characters(children[j].1),
        children_events(children)[3 * j + 2] == end_tag(children[j].0),
    decreases children.len(),
{
    let n = children.len();
    let front = children.drop_last();
    lemma_children_events_len(children);
    lemma_children_events_len(front);
    if j < n - 1 {
        lemma_children_events(front, j);
    }
}

proof fn lemma_children_events_len(children: Seq<(Seq<char>, Seq<char>)>)
    ensures
        children_events(children).len() == 3 * children.len(),
    decreases children.len(),
{
    if children.len() > 0 {
        lemma_children_events_len(children.drop_last());
    }
}

proof fn lemma_element_events(root: Seq<char>, children: Seq<(Seq<char>, Seq<char>)>, j: int)
    requires
        0 <= j < children.len(),
    ensures
        ({
            let ev = element_events(root, children);
            &&& ev.len() == 3 * children.len() + 2
            &&& ev[1 + 3 * j] == bare_start(children[j].0)
            &&& ev[2 + 3 * j] == EventModel::Characters(children[j].1)
            &&& ev[3 + 3 * j] == end_tag(children[j].0)
        }),
{
    lemma_children_events(children, j);
}

proof fn lemma_run_children(
    types: Seq<TypeView>,
    t: nat,
    root: Seq<char>,
    children: Seq<(Seq<char>, Seq<char>)>,
    m: nat,
    slots: Seq<ValueModel>,
    arena: Seq<RecordModel>,
)
    requires
        m <= children.len(),
        forall|j: int| 0 <= j < children.len() ==> child_ok(types[t as int].fields, #[trigger] children[j]),
    ensures
        run(
            types,
            element_events(root, children),
            1 + 3 * m,
            seq![outer_frame(t, root, slots)],
            arena,
        ) == Ok::<(nat, Seq<RecordModel>), crate::machine::ErrorModel>(
            (
                1 + 3 * children.len(),
                arena.push(
                    (RecordModel {
                        type_id: t,
                        fields: apply_children(types[t as int].fields, slots, children, m),
                    }),
                ),
            ),
        ),
    decreases children.len() - m,
{
    let ev = element_events(root, children);
    let n = children.len();
    let stack = seq![outer_frame(t, root, slots)];
    lemma_children_events_len(children);
    if m == n {
        assert(ev[1 + 3 * m as int] == end_tag(root));
    } else {
        lemma_element_events(root, children, m as int);
        let fields = types[t as int].fields;
        let child = children[m as int];
        assert(child_ok(fields, child));
        let next = apply_child(fields, slots, child);
        let i = find_field(fields, Role::Element, child.0, 0)->0;
        assert(stack.last() == stack[0]);
        let p = 2 + 3 * m;
        assert(inline_text(ev, p, 0, child.0, Seq::empty()) == inline_text(
            ev,
            p + 1,
            0,
            child.0,
            Seq::empty() + child.1,
        ));
        assert(Seq::<char>::empty() + child.1 =~= child.1);
        assert(inline_text(ev, p + 1, 0, child.0, child.1) == Ok::<
            (nat, Seq<char>),
            crate::machine::ErrorModel,
        >(((p + 2) as nat, child.1)));
        assert(step(types, ev, 1 + 3 * m, stack, arena) == StepModel::Continue(
            1 + 3 * (m + 1),
            seq![outer_frame(t, root, next)],
            arena,
        )) by {
            let k = fields[i as int].kind.spec_item()->Scalar_0;
            assert(crate::machine::fill_top(
                types,
                stack,
                i,
                ItemModel::Scalar(spec_convert(k, child.1)->0),
            ) =~= seq![outer_frame(t, root, next)]);
        }
        lemma_run_children(types, t, root, children, m + 1, next, arena);
    }
}

proof fn lemma_no_attributes(
    types: Seq<TypeView>,
    t: nat,
    i: nat,
    slots: Seq<ValueModel>,
    arena: Seq<RecordModel>,
)
    ensures
        apply_attributes(types, t, Seq::empty(), i, slots, arena) == Ok::<
            (Seq<ValueModel>, Seq<RecordModel>),
            crate::machine::ErrorModel,
        >((slots, arena)),
    decreases types[t as int].fields.len() - i,
{
    if i < types[t as int].fields.len() {
        lemma_no_attributes(types, t, i + 1, slots, arena);
    }
}

/// Reading an element with no attributes whose content is text-valued child
/// elements, each read into a scalar element field, yields the record whose
/// slots start at their defaults and then take the children in document
/// order; the reader stops on the element's end tag.
pub proof fn lemma_read_children(
    types: Seq<TypeView>,
    t: nat,
    root: Seq<char>,
    children: Seq<(Seq<char>, Seq<char>)>,
)
    requires
        schema_wf(types),
        t < types.len(),
        types[t as int].namespaces.len() == 0,
        forall|j: int| 0 <= j < children.len() ==> child_ok(types[t as int].fields, #[trigger] children[j]),
    ensures
        ({
            let (slots, arena) = seed(types, t, 0, Seq::empty(), Seq::empty());
            spec_deserialize(types, t, element_events(root, children), 0) == Ok::<
                (nat, Seq<RecordModel>),
                crate::machine::ErrorModel,
            >(
                (
                    1 + 3 * children.len(),
                    arena.push(
                        (RecordModel {
                            type_id: t,
                            fields: apply_children(types[t as int].fields, slots, children, 0),
                        }),
                    ),
                ),
            )
        }),
{
    let ev = element_events(root, children);
    lemma_children_events_len(children);
    assert(ev[0] == bare_start(root));
    let (slots, arena) = seed(types, t, 0, Seq::empty(), Seq::empty());
    lemma_no_attributes(types, t, 0, slots, arena);
    assert(namespaces_ok(types[t as int].namespaces, Seq::empty()));
    lemma_run_children(types, t, root, children, 0, slots, arena);
}

/// A found field lies in range, from the start index on, and has the role and
/// name looked for.
pub proof fn lemma_find_field(fields: Seq<FieldView>, role: Role, name: Seq<char>, i: nat)
    ensures
        find_field(fields, role, name, i) matches Some(j) ==> i <= j < fields.len()
            && fields[j as int].role == role && fields[j as int].xml_name == name,
    decreases fields.len() - i,
{
    if i < fields.len() {
        lemma_find_field(fields, role, name, i + 1);
    }
}

/// The slot a scalar field, or an optional field with no declared default,
/// starts with.
pub open spec fn plain_default(f: FieldView) -> ValueModel {
    match f.kind {
        ValueKind::Optional(_) => ValueModel::Optional(
            match f.default {
                DefaultModel::Literal(s) => Some(ItemModel::Scalar(s)),
                _ => None,
            },
        ),
        ValueKind::List(_) => ValueModel::List(crate::machine::default_items(f.default)),
        _ => ValueModel::One(
            ItemModel::Scalar(
                match (f.default, f.kind.spec_item()) {
                    (DefaultModel::Literal(s), _) => s,
                    (_, ItemKind::Scalar(k)) => crate::machine::zero_scalar(k),
                    (_, ItemKind::Record(_)) => crate::machine::zero_scalar(
                        crate::kind::ScalarKind::Text,
                    ),
                },
            ),
        ),
    }
}

proof fn lemma_seed_prefix(
    types: Seq<TypeView>,
    t: nat,
    i: nat,
    slots: Seq<ValueModel>,
    arena: Seq<RecordModel>,
)
    requires
        i <= types[t as int].fields.len(),
    ensures
        seed(types, t, i, slots, arena).0.len() == slots.len() + types[t as int].fields.len() - i,
        seed(types, t, i, slots, arena).0.subrange(0, slots.len() as int) == slots,
    decreases types[t as int].fields.len() - i,
{
    let fields = types[t as int].fields;
    if i < fields.len() {
        let f = fields[i as int];
        let (v, a2) = crate::machine::seed_value(types, t, f, arena);
        lemma_seed_prefix(types, t, i + 1, slots.push(v), a2);
        let r = seed(types, t, i + 1, slots.push(v), a2).0;
        assert(r.subrange(0, slots.len() as int) =~= r.subrange(0, slots.len() + 1 as int).subrange(
            0,
            slots.len() as int,
        ));
        assert(slots.push(v).subrange(0, slots.len() as int) =~= slots);
    } else {
        assert(slots.subrange(0, slots.len() as int) =~= slots);
    }
}

/// A scalar field, or an optional field with no declared default, starts
/// with its plain default.
pub proof fn lemma_seed_slot(types: Seq<TypeView>, t: nat, j: nat)
    requires
        j < types[t as int].fields.len(),
        types[t as int].fields[j as int].kind.spec_item() is Scalar || (types[t as int].fields[
            j as int
        ].kind is Optional && types[t as int].fields[j as int].default is Implicit),
    ensures
        seed(types, t, 0, Seq::empty(), Seq::empty()).0.len() == types[t as int].fields.len(),
        seed(types, t, 0, Seq::empty(), Seq::empty()).0[j as int] == plain_default(
            types[t as int].fields[j as int],
        ),
{
    lemma_seed_slot_from(types, t, 0, Seq::empty(), Seq::empty(), j);
}

proof fn lemma_seed_slot_from(
    types: Seq<TypeView>,
    t: nat,
    i: nat,
    slots: Seq<ValueModel>,
    arena: Seq<RecordModel>,
    j: nat,
)
    requires
        i <= j < types[t as int].fields.len(),
        types[t as int].fields[j as int].kind.spec_item() is Scalar || (types[t as int].fields[
            j as int
        ].kind is Optional && types[t as int].fields[j as int].default is Implicit),
    ensures
        seed(types, t, i, slots, arena).0.len() == slots.len() + types[t as int].fields.len() - i,
        seed(types, t, i, slots, arena).0[slots.len() + j - i] == plain_default(
            types[t as int].fields[j as int],
        ),
    decreases j - i,
{
    let fields = types[t as int].fields;
    let f = fields[i as int];
    let (v, a2) = crate::machine::seed_value(types, t, f, arena);
    assert(seed(types, t, i, slots, arena) == seed(types, t, i + 1, slots.push(v), a2));
    if i < j {
        lemma_seed_slot_from(types, t, i + 1, slots.push(v), a2, j);
    } else {
        lemma_seed_prefix(types, t, i + 1, slots.push(v), a2);
        let r = seed(types, t, i + 1, slots.push(v), a2).0;
        assert(r[slots.len() as int] == r.subrange(0, slots.len() + 1 as int)[slots.len() as int]);
    }
}

/// Child elements that all have the given name, with the given texts.
pub open spec fn named_children(name: Seq<char>, texts: Seq<Seq<char>>) -> Seq<
    (Seq<char>, Seq<char>),
> {
    texts.map_values(|x: Seq<char>| (name, x))
}

/// The items that texts convert to under a scalar kind.
pub open spec fn items_of(k: crate::kind::ScalarKind, texts: Seq<Seq<char>>) -> Seq<ItemModel> {
    texts.map_values(|x: Seq<char>| ItemModel::Scalar(spec_convert(k, x)->0))
}

proof fn lemma_apply_list(
    fields: Seq<FieldView>,
    slots: Seq<ValueModel>,
    name: Seq<char>,
    texts: Seq<Seq<char>>,
    m: nat,
    i: nat,
    k: crate::kind::ScalarKind,
)
    requires
        find_field(fields, Role::Element, name, 0) == Some(i),
        fields[i as int].kind == ValueKind::List(ItemKind::Scalar(k)),
        i < slots.len(),
        slots[i as int] is List,
        m <= texts.len(),
    ensures
        apply_children(fields, slots, named_children(name, texts), m).len() == slots.len(),
        apply_children(fields, slots, named_children(name, texts), m)[i as int] == ValueModel::List(
            list_items(slots[i as int]) + items_of(k, texts.subrange(m as int, texts.len() as int)),
        ),
    decreases texts.len() - m,
{
    let ch = named_children(name, texts);
    if m < texts.len() {
        let item = ItemModel::Scalar(spec_convert(k, texts[m as int])->0);
        let next = apply_child(fields, slots, ch[m as int]);
        assert(next[i as int] == ValueModel::List(list_items(slots[i as int]).push(item)));
        lemma_apply_list(fields, next, name, texts, m + 1, i, k);
        assert(items_of(k, texts.subrange(m as int, texts.len() as int)) =~= seq![item] + items_of(
            k,
            texts.subrange(m + 1 as int, texts.len() as int),
        ));
        assert(list_items(slots[i as int]).push(item) + items_of(
            k,
            texts.subrange(m + 1 as int, texts.len() as int),
        ) =~= list_items(slots[i as int]) + items_of(
            k,
            texts.subrange(m as int, texts.len() as int),
        ));
    } else {
        assert(items_of(k, texts.subrange(m as int, texts.len() as int)) =~= Seq::empty());
        assert(list_items(slots[i as int]) + Seq::<ItemModel>::empty() =~= list_items(
            slots[i as int],
        ));
    }
}

/// Repeated child elements read into a list field extend the items it starts
/// with by one item per element, in document order.
pub proof fn lemma_list_in_document_order(
    types: Seq<TypeView>,
    t: nat,
    root: Seq<char>,
    name: Seq<char>,
    texts: Seq<Seq<char>>,
    i: nat,
    k: crate::kind::ScalarKind,
)
    requires
        schema_wf(types),
        t < types.len(),
        types[t as int].namespaces.len() == 0,
        find_field(types[t as int].fields, Role::Element, name, 0) == Some(i),
        types[t as int].fields[i as int].kind == ValueKind::List(ItemKind::Scalar(k)),
        forall|j: int| 0 <= j < texts.len() ==> spec_convert(k, #[trigger] texts[j]) is Some,
    ensures
        ({
            let r = spec_deserialize(types, t, element_events(root, named_children(name, texts)), 0);
            &&& r is Ok
            &&& r->Ok_0.1.last().fields[i as int] == ValueModel::List(
                crate::machine::default_items(types[t as int].fields[i as int].default) + items_of(
                    k,
                    texts,
                ),
            )
            &&& items_of(k, texts).len() == texts.len()
        }),
{
    let fields = types[t as int].fields;
    let ch = named_children(name, texts);
    assert forall|j: int| 0 <= j < ch.len() implies child_ok(fields, #[trigger] ch[j]) by {
        assert(ch[j] == (name, texts[j]));
    }
    lemma_read_children(types, t, root, ch);
    lemma_find_field(fields, Role::Element, name, 0);
    lemma_seed_slot(types, t, i);
    let slots = seed(types, t, 0, Seq::empty(), Seq::empty()).0;
    lemma_apply_list(fields, slots, name, texts, 0, i, k);
    assert(texts.subrange(0, texts.len() as int) =~= texts);
}

/// The items that the children from index `m` on add to list field `i` of
/// scalar kind `k`: one per child read into that field, in document order.
pub open spec fn field_items(
    fields: Seq<FieldView>,
    i: nat,
    k: crate::kind::ScalarKind,
    children: Seq<(Seq<char>, Seq<char>)>,
    m: nat,
) -> Seq<ItemModel>
    decreases children.len() - m,
{
    if m >= children.len() {
        Seq::empty()
    } else {
        let c = children[m as int];
        let rest = field_items(fields, i, k, children, m + 1);
        if find_field(fields, Role::Element, c.0, 0) == Some(i) {
            seq![ItemModel::Scalar(spec_convert(k, c.1)->0)] + rest
        } else {
            rest
        }
    }
}

proof fn lemma_apply_list_among(
    fields: Seq<FieldView>,
    slots: Seq<ValueModel>,
    children: Seq<(Seq<char>, Seq<char>)>,
    m: nat,
    i: nat,
    k: crate::kind::ScalarKind,
)
    requires
        i < fields.len(),
        slots.len() == fields.len(),
        fields[i as int].kind == ValueKind::List(ItemKind::Scalar(k)),
        slots[i as int] is List,
        forall|j: int| 0 <= j < children.len() ==> child_ok(fields, #[trigger] children[j]),
    ensures
        apply_children(fields, slots, children, m).len() == slots.len(),
        apply_children(fields, slots, children, m)[i as int] == ValueModel::List(
            list_items(slots[i as int]) + field_items(fields, i, k, children, m),
        ),
    decreases children.len() - m,
{
    if m < children.len() {
        let c = children[m as int];
        assert(child_ok(fields, c));
        lemma_find_field(fields, Role::Element, c.0, 0);
        let next = apply_child(fields, slots, c);
        lemma_apply_list_among(fields, next, children, m + 1, i, k);
        let rest = field_items(fields, i, k, children, m + 1);
        if find_field(fields, Role::Element, c.0, 0) == Some(i) {
            let item = ItemModel::Scalar(spec_convert(k, c.1)->0);
            assert(next[i as int] == ValueModel::List(list_items(slots[i as int]).push(item)));
            assert(list_items(slots[i as int]).push(item) + rest =~= list_items(slots[i as int]) + (
            seq![item] + rest));
        } else {
            assert(next[i as int] == slots[i as int]);
        }
    } else {
        assert(list_items(slots[i as int]) + Seq::<ItemModel>::empty() =~= list_items(
            slots[i as int],
        ));
    }
}

/// Child elements read into a list field, among any other scalar children,
/// extend the items it starts with by one item per such element, in
/// document order.
pub proof fn lemma_list_among_children(
    types: Seq<TypeView>,
    t: nat,
    root: Seq<char>,
    children: Seq<(Seq<char>, Seq<char>)>,
    i: nat,
    k: crate::kind::ScalarKind,
)
    requires
        schema_wf(types),
        t < types.len(),
        types[t as int].namespaces.len() == 0,
        i < types[t as int].fields.len(),
        types[t as int].fields[i as int].kind == ValueKind::List(ItemKind::Scalar(k)),
        forall|j: int| 0 <= j < children.len() ==> child_ok(types[t as int].fields, #[trigger] children[j]),
    ensures
        ({
            let r = spec_deserialize(types, t, element_events(root, children), 0);
            &&& r is Ok
            &&& r->Ok_0.1.last().fields[i as int] == ValueModel::List(
                crate::machine::default_items(types[t as int].fields[i as int].default)
                    + field_items(types[t as int].fields, i, k, children, 0),
            )
        }),
{
    let fields = types[t as int].fields;
    lemma_read_children(types, t, root, children);
    lemma_seed_slot(types, t, i);
    let slots = seed(types, t, 0, Seq::empty(), Seq::empty()).0;
    lemma_apply_list_among(fields, slots, children, 0, i, k);
}

proof fn lemma_apply_keeps_slot(
    fields: Seq<FieldView>,
    slots: Seq<ValueModel>,
    children: Seq<(Seq<char>, Seq<char>)>,
    m: nat,
    i: nat,
)
    requires
        i < fields.len(),
        slots.len() == fields.len(),
        forall|j: int|
            m <= j < children.len() ==> find_field(fields, Role::Element, #[trigger] children[j].0, 0)
                != Some(i),
        forall|j: int| m <= j < children.len() ==> child_ok(fields, #[trigger] children[j]),
    ensures
        apply_children(fields, slots, children, m)[i as int] == slots[i as int],
    decreases children.len() - m,
{
    if m < children.len() {
        let c = children[m as int];
        lemma_find_field(fields, Role::Element, c.0, 0);
        assert(child_ok(fields, c));
        assert(apply_child(fields, slots, c).len() == slots.len());
        lemma_apply_keeps_slot(fields, apply_child(fields, slots, c), children, m + 1, i);
    }
}

/// An optional field read from an element or an attribute, with no declared
/// default, is absent when the record's element has no attribute and no child
/// element of its name.
pub proof fn lemma_optional_absent(
    types: Seq<TypeView>,
    t: nat,
    root: Seq<char>,
    others: Seq<(Seq<char>, Seq<char>)>,
    i: nat,
)
    requires
        schema_wf(types),
        t < types.len(),
        types[t as int].namespaces.len() == 0,
        i < types[t as int].fields.len(),
        types[t as int].fields[i as int].role == Role::Element || types[t as int].fields[
            i as int
        ].role == Role::Attribute,
        types[t as int].fields[i as int].kind is Optional,
        types[t as int].fields[i as int].default is Implicit,
        forall|j: int| 0 <= j < others.len() ==> child_ok(types[t as int].fields, #[trigger] others[j]),
        forall|j: int|
            0 <= j < others.len() ==> #[trigger] others[j].0 != types[t as int].fields[
                i as int
            ].xml_name,
    ensures
        ({
            let r = spec_deserialize(types, t, element_events(root, others), 0);
            &&& r is Ok
            &&& r->Ok_0.1.last().fields[i as int] == ValueModel::Optional(None)
        }),
{
    let fields = types[t as int].fields;
    lemma_seed_slot(types, t, i);
    let slots = seed(types, t, 0, Seq::empty(), Seq::empty()).0;
    lemma_read_children(types, t, root, others);
    assert forall|j: int| 0 <= j < others.len() implies find_field(
        fields,
        Role::Element,
        #[trigger] others[j].0,
        0,
    ) != Some(i) by {
        lemma_find_field(fields, Role::Element, others[j].0, 0);
    }
    lemma_apply_keeps_slot(fields, slots, others, 0, i);
}

proof fn lemma_optional_last(
    fields: Seq<FieldView>,
    slots: Seq<ValueModel>,
    children: Seq<(Seq<char>, Seq<char>)>,
    m: nat,
    i: nat,
    k: crate::kind::ScalarKind,
    j: int,
)
    requires
        i < fields.len(),
        slots.len() == fields.len(),
        fields[i as int].kind == ValueKind::Optional(ItemKind::Scalar(k)),
        m <= j < children.len(),
        find_field(fields, Role::Element, children[j].0, 0) == Some(i),
        forall|l: int|
            j < l < children.len() ==> find_field(fields, Role::Element, #[trigger] children[l].0, 0)
                != Some(i),
        forall|l: int| 0 <= l < children.len() ==> child_ok(fields, #[trigger] children[l]),
    ensures
        apply_children(fields, slots, children, m)[i as int] == ValueModel::Optional(
            Some(ItemModel::Scalar(spec_convert(k, children[j].1)->0)),
        ),
    decreases j - m,
{
    let c = children[m as int];
    assert(child_ok(fields, c));
    lemma_find_field(fields, Role::Element, c.0, 0);
    let next = apply_child(fields, slots, c);
    if m < j {
        lemma_optional_last(fields, next, children, m + 1, i, k, j);
    } else {
        lemma_apply_keeps_slot(fields, next, children, m + 1, i);
    }
}

/// An optional element field, among any other scalar children, holds the
/// converted text of the last child element read into it.
pub proof fn lemma_optional_present(
    types: Seq<TypeView>,
    t: nat,
    root: Seq<char>,
    children: Seq<(Seq<char>, Seq<char>)>,
    i: nat,
    k: crate::kind::ScalarKind,
    j: int,
)
    requires
        schema_wf(types),
        t < types.len(),
        types[t as int].namespaces.len() == 0,
        i < types[t as int].fields.len(),
        types[t as int].fields[i as int].kind == ValueKind::Optional(ItemKind::Scalar(k)),
        forall|l: int| 0 <= l < children.len() ==> child_ok(types[t as int].fields, #[trigger] children[l]),
        0 <= j < children.len(),
        find_field(types[t as int].fields, Role::Element, children[j].0, 0) == Some(i),
        forall|l: int|
            j < l < children.len() ==> find_field(
                types[t as int].fields,
                Role::Element,
                #[trigger] children[l].0,
                0,
            ) != Some(i),
    ensures
        ({
            let r = spec_deserialize(types, t, element_events(root, children), 0);
            &&& r is Ok
            &&& r->Ok_0.1.last().fields[i as int] == ValueModel::Optional(
                Some(ItemModel::Scalar(spec_convert(k, children[j].1)->0)),
            )
        }),
{
    let fields = types[t as int].fields;
    lemma_read_children(types, t, root, children);
    lemma_seed_prefix(types, t, 0, Seq::empty(), Seq::empty());
    let slots = seed(types, t, 0, Seq::empty(), Seq::empty()).0;
    lemma_optional_last(fields, slots, children, 0, i, k, j);
}

/// Reading depends on the events alone: equal event sequences read from the
/// same position give equal results, records or errors alike.
pub proof fn lemma_same_events_same_result(
    types: Seq<TypeView>,
    ty: nat,
    first: Seq<EventModel>,
    second: Seq<EventModel>,
    pos: nat,
)
    requires
        first == second,
    ensures
        spec_deserialize(types, ty, first, pos) == spec_deserialize(types, ty, second, pos),
{
}

/// A record type read from single scalar child elements of distinct names,
/// with no namespace requirements.
pub open spec fn scalar_element_type(ty: TypeView) -> bool {
    &&& ty.namespaces.len() == 0
    &&& forall|i: int|
        0 <= i < ty.fields.len() ==> (#[trigger] ty.fields[i]).role == Role::Element
            && ty.fields[i].kind is One && ty.fields[i].kind.spec_item() is Scalar
    &&& forall|i: int, j: int|
        0 <= i < ty.fields.len() && 0 <= j < ty.fields.len() && i != j ==> #[trigger] ty.fields[i].xml_name
            != #[trigger] ty.fields[j].xml_name
}

/// Slots that hold one scalar of each field's kind.
pub open spec fn scalar_slots_fit(fields: Seq<FieldView>, values: Seq<ValueModel>) -> bool {
    &&& values.len() == fields.len()
    &&& forall|j: int|
        0 <= j < values.len() ==> (#[trigger] values[j]) is One && values[j]->One_0 is Scalar
            && crate::schema::scalar_has_kind(
            values[j]->One_0->Scalar_0,
            fields[j].kind.spec_item()->Scalar_0,
        )
}

/// The child elements that write out scalar slots: for each field, an
/// element of its XML name holding the canonical text of its value.
pub open spec fn scalar_children(fields: Seq<FieldView>, values: Seq<ValueModel>) -> Seq<
    (Seq<char>, Seq<char>),
> {
    Seq::new(
        fields.len(),
        |j: int| (fields[j].xml_name, crate::text::scalar_text(values[j]->One_0->Scalar_0)),
    )
}

/// The events that write out a record of scalar element fields.
pub open spec fn record_events(ty: TypeView, values: Seq<ValueModel>) -> Seq<EventModel> {
    element_events(ty.root, scalar_children(ty.fields, values))
}

proof fn lemma_find_distinct(ty: TypeView, j: int, i: nat)
    requires
        scalar_element_type(ty),
        0 <= i <= j < ty.fields.len(),
    ensures
        find_field(ty.fields, Role::Element, ty.fields[j].xml_name, i) == Some(j as nat),
    decreases j - i,
{
    if i < j {
        assert(ty.fields[i as int].xml_name != ty.fields[j].xml_name);
        lemma_find_distinct(ty, j, i + 1);
    }
}

/// Child `j` is read into field `j`, a single scalar, as the value `values[j]`.
pub open spec fn child_reads_as(
    fields: Seq<FieldView>,
    values: Seq<ValueModel>,
    children: Seq<(Seq<char>, Seq<char>)>,
    j: int,
) -> bool {
    let k = fields[j].kind.spec_item()->Scalar_0;
    &&& find_field(fields, Role::Element, children[j].0, 0) == Some(j as nat)
    &&& fields[j].kind == ValueKind::One(ItemKind::Scalar(k))
    &&& values[j] == ValueModel::One(ItemModel::Scalar(spec_convert(k, children[j].1)->0))
    &&& spec_convert(k, children[j].1) is Some
}

proof fn lemma_apply_all(
    fields: Seq<FieldView>,
    slots: Seq<ValueModel>,
    values: Seq<ValueModel>,
    children: Seq<(Seq<char>, Seq<char>)>,
    m: nat,
)
    requires
        slots.len() == fields.len(),
        values.len() == fields.len(),
        children.len() == fields.len(),
        m <= fields.len(),
        forall|j: int| 0 <= j < m ==> slots[j] == values[j],
        forall|j: int| 0 <= j < fields.len() ==> #[trigger] child_reads_as(fields, values, children, j),
    ensures
        apply_children(fields, slots, children, m) =~= values,
    decreases fields.len() - m,
{
    if m < fields.len() {
        assert(child_reads_as(fields, values, children, m as int));
        let next = slots.update(m as int, values[m as int]);
        assert(apply_child(fields, slots, children[m as int]) == next);
        lemma_apply_all(fields, next, values, children, m + 1);
    } else {
        assert(slots =~= values);
    }
}

/// Writing out a record of scalar element fields as events (the events that
/// `writer::write_record` returns) and reading them back gives the same
/// record, for every scalar kind.
pub proof fn lemma_round_trip(types: Seq<TypeView>, t: nat, values: Seq<ValueModel>)
    requires
        schema_wf(types),
        t < types.len(),
        scalar_element_type(types[t as int]),
        scalar_slots_fit(types[t as int].fields, values),
    ensures
        ({
            let r = spec_deserialize(types, t, record_events(types[t as int], values), 0);
            r is Ok && r->Ok_0.1.last().fields == values
        }),
{
    let ty = types[t as int];
    let fields = ty.fields;
    let children = scalar_children(fields, values);
    assert forall|j: int| 0 <= j < fields.len() implies #[trigger] child_reads_as(
        fields,
        values,
        children,
        j,
    ) by {
        assert(fields[j] == ty.fields[j]);
        lemma_find_distinct(ty, j, 0);
        crate::text::lemma_convert_text(
            values[j]->One_0->Scalar_0,
            fields[j].kind.spec_item()->Scalar_0,
        );
    }
    assert forall|j: int| 0 <= j < children.len() implies child_ok(fields, #[trigger] children[j]) by {
        assert(child_reads_as(fields, values, children, j));
    }
    lemma_read_children(types, t, ty.root, children);
    lemma_seed_prefix(types, t, 0, Seq::empty(), Seq::empty());
    let slots = seed(types, t, 0, Seq::empty(), Seq::empty()).0;
    lemma_apply_all(fields, slots, values, children, 0);
}

} // verus!
