use vstd::prelude::*;
use vstd::string::StrSliceExecFns;
use crate::kind::ScalarKind;
use crate::value::{Scalar, ScalarModel};

verus! {

pub open spec fn is_digit(c: char) -> bool {
    '0' <= c && c <= '9'
}

pub open spec fn digit_value(c: char) -> int {
    c as int - '0' as int
}

/// The number that a run of decimal digits denotes.
pub open spec fn digits_value(s: Seq<char>) -> int
    decreases s.len(),
{
    if s.len() == 0 {
        0
    } else {
        10 * digits_value(s.drop_last()) + digit_value(s.last())
    }
}

/// At least one character, all of them decimal digits.
pub open spec fn is_digits(s: Seq<char>) -> bool {
    s.len() > 0 && forall|i: int| 0 <= i < s.len() ==> is_digit(#[trigger] s[i])
}

/// Splits a numeral into its sign (true for minus) and its digits: an
/// optional `+`, or `-` where `signed` allows it, then the rest.
pub open spec fn numeral_parts(s: Seq<char>, signed: bool) -> (bool, Seq<char>) {
    if s.len() > 0 && s[0] == '+' {
        (false, s.drop_first())
    } else if signed && s.len() > 0 && s[0] == '-' {
        (true, s.drop_first())
    } else {
        (false, s)
    }
}

/// The integer a decimal numeral denotes, if `s` is one.
pub open spec fn numeral_value(s: Seq<char>, signed: bool) -> Option<int> {
    let (neg, digits) = numeral_parts(s, signed);
    if is_digits(digits) {
        Some(if neg { -digits_value(digits) } else { digits_value(digits) })
    } else {
        None
    }
}

pub open spec fn is_signed(kind: ScalarKind) -> bool {
    match kind {
        ScalarKind::Int8 | ScalarKind::Int16 | ScalarKind::Int32 | ScalarKind::Int64 => true,
        _ => false,
    }
}

/// The text of a boolean literal.
pub open spec fn bool_text(b: bool) -> Seq<char> {
    if b {
        seq!['t', 'r', 'u', 'e']
    } else {
        seq!['f', 'a', 'l', 's', 'e']
    }
}

/// The value that `text` converts to under `kind`: text is taken as it is,
/// a boolean is `true` or `false`, an integer is a decimal numeral within the
/// range of its type. `None` when the text is malformed or out of range.
pub open spec fn spec_convert(kind: ScalarKind, text: Seq<char>) -> Option<ScalarModel> {
    match kind {
        ScalarKind::Text => Some(ScalarModel::Text(text)),
        ScalarKind::Bool => if text == bool_text(true) {
            Some(ScalarModel::Bool(true))
        } else if text == bool_text(false) {
            Some(ScalarModel::Bool(false))
        } else {
            None
        },
        _ => match numeral_value(text, is_signed(kind)) {
            None => None,
            Some(v) => match kind {
                ScalarKind::Int8 => if i8::MIN <= v <= i8::MAX { Some(ScalarModel::I8(v as i8)) } else { None },
                ScalarKind::Int16 => if i16::MIN <= v <= i16::MAX { Some(ScalarModel::I16(v as i16)) } else { None },
                ScalarKind::Int32 => if i32::MIN <= v <= i32::MAX { Some(ScalarModel::I32(v as i32)) } else { None },
                ScalarKind::Int64 => if i64::MIN <= v <= i64::MAX { Some(ScalarModel::I64(v as i64)) } else { None },
                ScalarKind::UInt8 => if 0 <= v <= u8::MAX { Some(ScalarModel::U8(v as u8)) } else { None },
                ScalarKind::UInt16 => if 0 <= v <= u16::MAX { Some(ScalarModel::U16(v as u16)) } else { None },
                ScalarKind::UInt32 => if 0 <= v <= u32::MAX { Some(ScalarModel::U32(v as u32)) } else { None },
                _ => if 0 <= v <= u64::MAX { Some(ScalarModel::U64(v as u64)) } else { None },
            },
        },
    }
}

/// The decimal digit for `d`, which is below ten.
pub open spec fn digit_char(d: nat) -> char {
    if d == 0 {
        '0'
    } else if d == 1 {
        '1'
    } else if d == 2 {
        '2'
    } else if d == 3 {
        '3'
    } else if d == 4 {
        '4'
    } else if d == 5 {
        '5'
    } else if d == 6 {
        '6'
    } else if d == 7 {
        '7'
    } else if d == 8 {
        '8'
    } else {
        '9'
    }
}

/// The shortest decimal numeral of `n`.
pub open spec fn decimal_text(n: nat) -> Seq<char>
    decreases n,
{
    if n < 10 {
        seq![digit_char(n)]
    } else {
        decimal_text(n / 10).push(digit_char(n % 10))
    }
}

/// The shortest decimal numeral of `v`, with `-` before a negative one.
pub open spec fn int_text(v: int) -> Seq<char> {
    if v < 0 {
        seq!['-'] + decimal_text((-v) as nat)
    } else {
        decimal_text(v as nat)
    }
}

/// The canonical text of a scalar: the text itself, `true` or `false`, or the
/// shortest decimal numeral.
pub open spec fn scalar_text(s: ScalarModel) -> Seq<char> {
    match s {
        ScalarModel::Text(t) => t,
        ScalarModel::Bool(b) => bool_text(b),
        ScalarModel::I8(v) => int_text(v as int),
        ScalarModel::I16(v) => int_text(v as int),
        ScalarModel::I32(v) => int_text(v as int),
        ScalarModel::I64(v) => int_text(v as int),
        ScalarModel::U8(v) => int_text(v as int),
        ScalarModel::U16(v) => int_text(v as int),
        ScalarModel::U32(v) => int_text(v as int),
        ScalarModel::U64(v) => int_text(v as int),
    }
}

pub proof fn lemma_decimal_text(n: nat)
    ensures
        is_digits(decimal_text(n)),
        digits_value(decimal_text(n)) == n,
    decreases n,
{
    let t = decimal_text(n);
    if n < 10 {
        assert(t.drop_last() =~= Seq::<char>::empty());
        assert(digits_value(t.drop_last()) == 0);
        assert(t.last() == digit_char(n));
        assert(digit_value(digit_char(n)) == n);
    } else {
        lemma_decimal_text(n / 10);
        assert(t.drop_last() =~= decimal_text(n / 10));
        assert(digit_value(digit_char(n % 10)) == n % 10);
        assert(t.last() == digit_char(n % 10));
        assert(10 * (n / 10) + n % 10 == n);
        assert(digits_value(t) == 10 * digits_value(t.drop_last()) + digit_value(t.last()));
        assert forall|i: int| 0 <= i < t.len() implies is_digit(#[trigger] t[i]) by {
            if i < t.len() - 1 {
                assert(t[i] == decimal_text(n / 10)[i]);
            }
        }
    }
}

/// The canonical numeral of an integer reads back as that integer, where the
/// sign is allowed.
pub proof fn lemma_int_text(v: int, signed: bool)
    requires
        v >= 0 || signed,
    ensures
        numeral_value(int_text(v), signed) == Some(v),
{
    let n: nat = if v < 0 { (-v) as nat } else { v as nat };
    lemma_decimal_text(n);
    let d = decimal_text(n);
    assert(is_digit(d[0]));
    if v < 0 {
        assert((seq!['-'] + d).drop_first() =~= d);
        assert((seq!['-'] + d)[0] == '-');
    }
}

/// A scalar's canonical text converts back to the scalar under its kind.
pub proof fn lemma_convert_text(s: ScalarModel, k: ScalarKind)
    requires
        crate::schema::scalar_has_kind(s, k),
    ensures
        spec_convert(k, scalar_text(s)) == Some(s),
{
    match s {
        ScalarModel::Text(_) => {},
        ScalarModel::Bool(b) => {
            assert(bool_text(true) != bool_text(false)) by {
                assert(bool_text(true).len() != bool_text(false).len());
            }
        },
        ScalarModel::I8(v) => lemma_int_text(v as int, true),
        ScalarModel::I16(v) => lemma_int_text(v as int, true),
        ScalarModel::I32(v) => lemma_int_text(v as int, true),
        ScalarModel::I64(v) => lemma_int_text(v as int, true),
        ScalarModel::U8(v) => lemma_int_text(v as int, false),
        ScalarModel::U16(v) => lemma_int_text(v as int, false),
        ScalarModel::U32(v) => lemma_int_text(v as int, false),
        ScalarModel::U64(v) => lemma_int_text(v as int, false),
    }
}

pub proof fn lemma_digits_value_nonneg(s: Seq<char>)
    requires
        forall|i: int| 0 <= i < s.len() ==> is_digit(#[trigger] s[i]),
    ensures
        digits_value(s) >= 0,
    decreases s.len(),
{
    if s.len() > 0 {
        lemma_digits_value_nonneg(s.drop_last());
    }
}

/// A run of digits denotes at least as much as any of its prefixes.
pub proof fn lemma_digits_value_prefix(s: Seq<char>, k: int)
    requires
        0 <= k <= s.len(),
        forall|i: int| 0 <= i < s.len() ==> is_digit(#[trigger] s[i]),
    ensures
        digits_value(s) >= digits_value(s.subrange(0, k)),
    decreases s.len() - k,
{
    if k < s.len() {
        let t = s.subrange(0, k + 1);
        assert(t.drop_last() =~= s.subrange(0, k));
        lemma_digits_value_nonneg(s.subrange(0, k));
        lemma_digits_value_prefix(s, k + 1);
    } else {
        assert(s.subrange(0, k) =~= s);
    }
}

/// The value of the digits of `s` from `start` on, when they are all digits,
/// at least one, and the value fits in a `u64`.
fn digits_magnitude(s: &str, start: usize) -> (r: Option<u64>)
    requires
        start <= s@.len(),
    ensures
        ({
            let d = s@.subrange(start as int, s@.len() as int);
            match r {
                Some(m) => is_digits(d) && m == digits_value(d),
                None => !is_digits(d) || digits_value(d) > u64::MAX,
            }
        }),
{
    let n = s.unicode_len();
    if start >= n {
        return None;
    }
    let ghost d = s@.subrange(start as int, n as int);
    let mut acc: u64 = 0;
    let mut i: usize = start;
    while i < n
        invariant
            start <= i <= n,
            n == s@.len(),
            d == s@.subrange(start as int, n as int),
            forall|j: int| 0 <= j < i - start ==> is_digit(#[trigger] d[j]),
            acc == digits_value(d.subrange(0, i - start)),
        decreases n - i,
    {
        let c = s.get_char(i);
        assert(c == d[i - start]);
        if c < '0' || c > '9' {
            return None;
        }
        let dv: u64 = (c as u32 - '0' as u32) as u64;
        proof {
            let p = d.subrange(0, i - start + 1);
            assert(p.drop_last() =~= d.subrange(0, i - start));
            assert(p.last() == c);
        }
        if acc > (u64::MAX - dv) / 10 {
            proof {
                let p = d.subrange(0, i - start + 1);
                assert(digits_value(p) > u64::MAX) by (nonlinear_arith)
                    requires
                        digits_value(p) == 10 * acc + dv,
                        acc > (u64::MAX - dv) / 10,
                        dv <= 9,
                ;
                if is_digits(d) {
                    lemma_digits_value_prefix(d, i - start + 1);
                }
            }
            return None;
        }
        acc = acc * 10 + dv;
        i = i + 1;
    }
    assert(d.subrange(0, n - start) =~= d);
    Some(acc)
}

/// Reads a decimal numeral: its sign (true for minus) and the value of its
/// digits, or `None` where `numeral_value` gives none or the digits do not fit
/// in a `u64`.
fn numeral(s: &str, signed: bool) -> (r: Option<(bool, u64)>)
    ensures
        ({
            let (neg, d) = numeral_parts(s@, signed);
            match r {
                Some((n, m)) => n == neg && is_digits(d) && m == digits_value(d),
                None => !is_digits(d) || digits_value(d) > u64::MAX,
            }
        }),
{
    let n = s.unicode_len();
    let mut neg = false;
    let mut start: usize = 0;
    if n > 0 {
        let c = s.get_char(0);
        if c == '+' {
            start = 1;
        } else if signed && c == '-' {
            neg = true;
            start = 1;
        }
    }
    assert(s@.subrange(0, s@.len() as int) =~= s@);
    assert(start == 1 ==> s@.subrange(1, s@.len() as int) =~= s@.drop_first());
    match digits_magnitude(s, start) {
        Some(m) => Some((neg, m)),
        None => None,
    }
}

/// Converts a text token to a value of the given scalar kind, as
/// `spec_convert` states; `None` for malformed or out-of-range text.
pub fn convert(kind: ScalarKind, text: &str) -> (r: Option<Scalar>)
    ensures
        match r {
            Some(v) => spec_convert(kind, text@) == Some(v@),
            None => spec_convert(kind, text@) is None,
        },
{
    match kind {
        ScalarKind::Text => {
            return Some(Scalar::Text(text.to_owned()));
        },
        ScalarKind::Bool => {
            let n = text.unicode_len();
            proof {
                reveal_strlit("true");
                reveal_strlit("false");
            }
            if n == 4 && text.get_char(0) == 't' && text.get_char(1) == 'r' && text.get_char(2)
                == 'u' && text.get_char(3) == 'e' {
                assert(text@ =~= bool_text(true));
                return Some(Scalar::Bool(true));
            }
            if n == 5 && text.get_char(0) == 'f' && text.get_char(1) == 'a' && text.get_char(2)
                == 'l' && text.get_char(3) == 's' && text.get_char(4) == 'e' {
                assert(text@ =~= bool_text(false));
                return Some(Scalar::Bool(false));
            }
            return None;
        },
        _ => {},
    }
    let signed = match kind {
        ScalarKind::Int8 | ScalarKind::Int16 | ScalarKind::Int32 | ScalarKind::Int64 => true,
        _ => false,
    };
    let (neg, m) = match numeral(text, signed) {
        Some(p) => p,
        None => {
            return None;
        },
    };
    let v: i128 = if neg {
        -(m as i128)
    } else {
        m as i128
    };
    match kind {
        ScalarKind::Int8 => if i8::MIN as i128 <= v && v <= i8::MAX as i128 { Some(Scalar::I8(v as i8)) } else { None },
        ScalarKind::Int16 => if i16::MIN as i128 <= v && v <= i16::MAX as i128 { Some(Scalar::I16(v as i16)) } else { None },
        ScalarKind::Int32 => if i32::MIN as i128 <= v && v <= i32::MAX as i128 { Some(Scalar::I32(v as i32)) } else { None },
        ScalarKind::Int64 => if i64::MIN as i128 <= v && v <= i64::MAX as i128 { Some(Scalar::I64(v as i64)) } else { None },
        ScalarKind::UInt8 => if 0 <= v && v <= u8::MAX as i128 { Some(Scalar::U8(v as u8)) } else { None },
        ScalarKind::UInt16 => if 0 <= v && v <= u16::MAX as i128 { Some(Scalar::U16(v as u16)) } else { None },
        ScalarKind::UInt32 => if 0 <= v && v <= u32::MAX as i128 { Some(Scalar::U32(v as u32)) } else { None },
        _ => if 0 <= v && v <= u64::MAX as i128 { Some(Scalar::U64(v as u64)) } else { None },
    }
}

} // verus!
