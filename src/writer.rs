use vstd::prelude::*;
use vstd::string::StringExecFns;
use crate::event::{attributes_view, events_view, namespaces_view, Attribute, Event, Namespace};
use crate::laws::{
    bare_start, child_events, children_events, record_events, scalar_children, scalar_element_type,
    scalar_slots_fit,
};
use crate::schema::TypeDescriptor;
use crate::text::{bool_text, decimal_text, digit_char, int_text, scalar_text};
use crate::value::{values_view, Item, Scalar, Value};

verus! {

fn digit_str(d: u64) -> (r: &'static str)
    requires
        d < 10,
    ensures
        r@ == seq![digit_char(d as nat)],
{
    proof {
        reveal_strlit("0");
        reveal_strlit("1");
        reveal_strlit("2");
        reveal_strlit("3");
        reveal_strlit("4");
        reveal_strlit("5");
        reveal_strlit("6");
        reveal_strlit("7");
        reveal_strlit("8");
        reveal_strlit("9");
    }
    let r = if d == 0 {
        "0"
    } else if d == 1 {
        "1"
    } else if d == 2 {
        "2"
    } else if d == 3 {
        "3"
    } else if d == 4 {
        "4"
    } else if d == 5 {
        "5"
    } else if d == 6 {
        "6"
    } else if d == 7 {
        "7"
    } else if d == 8 {
        "8"
    } else {
        "9"
    };
    assert(r@ =~= seq![digit_char(d as nat)]);
    r
}

/// The shortest decimal numeral of `n`, after `prefix`.
fn write_decimal(prefix: String, n: u64) -> (r: String)
    ensures
        r@ == prefix@ + decimal_text(n as nat),
{
    let mut digits: Vec<u64> = Vec::new();
    let mut q: u64 = n;
    let ghost suffix: Seq<char> = Seq::empty();
    while q >= 10
        invariant
            decimal_text(n as nat) == decimal_text(q as nat) + suffix,
            suffix.len() == digits@.len(),
            forall|i: int|
                0 <= i < digits@.len() ==> #[trigger] digits@[i] < 10 && suffix[suffix.len() - 1 - i]
                    == digit_char(digits@[i] as nat),
        decreases q,
    {
        let d = q % 10;
        proof {
            assert(decimal_text(q as nat) == decimal_text((q / 10) as nat).push(digit_char(d as nat)));
            let s2 = seq![digit_char(d as nat)] + suffix;
            assert(decimal_text(q as nat) + suffix =~= decimal_text((q / 10) as nat) + s2);
            suffix = s2;
        }
        digits.push(d);
        q = q / 10;
    }
    let mut out = prefix;
    out.append(digit_str(q));
    assert(decimal_text(q as nat) == seq![digit_char(q as nat)]);
    let mut i: usize = digits.len();
    while i > 0
        invariant
            i <= digits@.len(),
            suffix.len() == digits@.len(),
            forall|j: int|
                0 <= j < digits@.len() ==> #[trigger] digits@[j] < 10 && suffix[suffix.len() - 1 - j]
                    == digit_char(digits@[j] as nat),
            out@ == prefix@ + decimal_text(q as nat) + suffix.subrange(0, digits@.len() - i),
            decimal_text(n as nat) == decimal_text(q as nat) + suffix,
        decreases i,
    {
        let d = digits[i - 1];
        let ghost before = out@;
        out.append(digit_str(d));
        assert(suffix.subrange(0, digits@.len() - i + 1) =~= suffix.subrange(
            0,
            digits@.len() - i,
        ).push(digit_char(d as nat)));
        i = i - 1;
    }
    assert(suffix.subrange(0, suffix.len() as int) =~= suffix);
    assert(out@ =~= prefix@ + decimal_text(n as nat));
    out
}

/// The canonical numeral of a signed value.
fn write_signed(v: i64) -> (r: String)
    ensures
        r@ == int_text(v as int),
{
    let empty = String::new();
    if v < 0 {
        let mut minus = String::new();
        proof {
            reveal_strlit("-");
        }
        minus.append("-");
        let m: u64 = if v == i64::MIN {
            9223372036854775808u64
        } else {
            (-v) as u64
        };
        let r = write_decimal(minus, m);
        assert(r@ =~= seq!['-'] + decimal_text((-(v as int)) as nat));
        r
    } else {
        let r = write_decimal(empty, v as u64);
        assert(r@ =~= decimal_text(v as nat));
        r
    }
}

/// The canonical numeral of an unsigned value.
fn write_unsigned(v: u64) -> (r: String)
    ensures
        r@ == int_text(v as int),
{
    let r = write_decimal(String::new(), v);
    assert(r@ =~= decimal_text(v as nat));
    r
}

/// The canonical text of a scalar, which `convert` reads back.
pub fn scalar_to_text(s: &Scalar) -> (r: String)
    ensures
        r@ == scalar_text(s@),
{
    match s {
        Scalar::Text(t) => t.clone(),
        Scalar::Bool(b) => {
            proof {
                reveal_strlit("true");
                reveal_strlit("false");
            }
            let mut r = String::new();
            if *b {
                r.append("true");
            } else {
                r.append("false");
            }
            assert(r@ =~= bool_text(*b));
            r
        },
        Scalar::I8(v) => write_signed(*v as i64),
        Scalar::I16(v) => write_signed(*v as i64),
        Scalar::I32(v) => write_signed(*v as i64),
        Scalar::I64(v) => write_signed(*v),
        Scalar::U8(v) => write_unsigned(*v as u64),
        Scalar::U16(v) => write_unsigned(*v as u64),
        Scalar::U32(v) => write_unsigned(*v as u64),
        Scalar::U64(v) => write_unsigned(*v),
    }
}

fn bare_start_event(name: String) -> (r: Event)
    ensures
        r@ == bare_start(name@),
{
    let attributes: Vec<Attribute> = Vec::new();
    let namespaces: Vec<Namespace> = Vec::new();
    assert(attributes_view(attributes@) =~= Seq::empty());
    assert(namespaces_view(namespaces@) =~= Seq::empty());
    Event::StartElement { name, attributes, namespaces }
}

/// Writes out a record of single scalar element fields as events: the type's
/// start tag, one element per field holding the canonical text of its value,
/// and the end tag.
pub fn write_record(ty: &TypeDescriptor, values: &Vec<Value>) -> (r: Vec<Event>)
    requires
        scalar_element_type(ty@),
        scalar_slots_fit(ty@.fields, values_view(values@)),
    ensures
        events_view(r@) == record_events(ty@, values_view(values@)),
{
    let ghost vv = values_view(values@);
    let ghost ch = scalar_children(ty@.fields, vv);
    let mut out: Vec<Event> = Vec::new();
    out.push(bare_start_event(ty.root.clone()));
    let mut j: usize = 0;
    assert(ch.subrange(0, 0) =~= Seq::empty());
    assert(events_view(out@) =~= seq![bare_start(ty@.root)] + children_events(ch.subrange(0, 0)));
    while j < ty.fields.len()
        invariant
            vv == values_view(values@),
            ch == scalar_children(ty@.fields, vv),
            scalar_slots_fit(ty@.fields, vv),
            ty@.fields.len() == ty.fields@.len(),
            j <= ty.fields@.len(),
            events_view(out@) == seq![bare_start(ty@.root)] + children_events(ch.subrange(0, j as int)),
        decreases ty.fields@.len() - j,
    {
        assert(ty@.fields[j as int] == ty.fields@[j as int]@);
        assert(vv[j as int] == values@[j as int]@);
        let text = match &values[j] {
            Value::One(Item::Scalar(s)) => scalar_to_text(s),
            _ => String::new(),
        };
        let name = &ty.fields[j].xml_name;
        let ghost before = events_view(out@);
        out.push(bare_start_event(name.clone()));
        out.push(Event::Characters(text));
        out.push(Event::EndElement { name: name.clone() });
        proof {
            let sub = ch.subrange(0, j + 1);
            assert(sub.drop_last() =~= ch.subrange(0, j as int));
            assert(sub.last() == ch[j as int]);
            assert(events_view(out@) =~= before + child_events(ch[j as int].0, ch[j as int].1));
        }
        j = j + 1;
    }
    out.push(Event::EndElement { name: ty.root.clone() });
    assert(ch.subrange(0, ch.len() as int) =~= ch);
    assert(events_view(out@) =~= record_events(ty@, vv));
    out
}

} // verus!
