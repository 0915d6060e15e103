use vstd::prelude::*;
use crate::error::{msg_enum, msg_invalid, msg_required, msg_unexpected_type};
use crate::field::FieldType;
use crate::schema::Enum;
use crate::value::{Value, ValueV};

verus! {

/// The models of a list of values.
pub open spec fn views(items: Seq<Value>) -> Seq<ValueV> {
    Seq::new(items.len(), |i: int| if 0 <= i < items.len() { items[i]@ } else { ValueV::Null })
}

/// A character fits a pattern character: `d` stands for a decimal digit,
/// `h` for a hexadecimal digit, anything else for itself.
pub open spec fn char_fits(c: char, p: char) -> bool {
    if p == 'd' {
        '0' <= c <= '9'
    } else if p == 'h' {
        ('0' <= c <= '9') || ('a' <= c <= 'f') || ('A' <= c <= 'F')
    } else {
        c == p
    }
}

/// A string has the shape of a pattern, character by character.
pub open spec fn pattern_ok(s: Seq<char>, pat: Seq<char>) -> bool {
    s.len() == pat.len() && forall|i: int| 0 <= i < s.len() ==> char_fits(#[trigger] s[i], pat[i])
}

/// The strict format of string-encoded types: an object id is 24
/// hexadecimal digits, a date `YYYY-MM-DD`, a date-time
/// `YYYY-MM-DDTHH:MM:SS.sssZ`.
pub open spec fn format_of(t: FieldType) -> Seq<char> {
    match t {
        FieldType::ObjectId => "hhhhhhhhhhhhhhhhhhhhhhhh"@,
        FieldType::Date => "dddd-dd-dd"@,
        _ => "dddd-dd-ddTdd:dd:dd.dddZ"@,
    }
}

fn char_fits_exec(c: char, p: char) -> (r: bool)
    ensures
        r == char_fits(c, p),
{
    if p == 'd' {
        '0' <= c && c <= '9'
    } else if p == 'h' {
        ('0' <= c && c <= '9') || ('a' <= c && c <= 'f') || ('A' <= c && c <= 'F')
    } else {
        c == p
    }
}

/// Whether a string has the shape of a pattern; see [`pattern_ok`].
pub fn fits_pattern(s: &str, pat: &str) -> (r: bool)
    ensures
        r == pattern_ok(s@, pat@),
{
    let n = s.unicode_len();
    if n != pat.unicode_len() {
        return false;
    }
    let mut i: usize = 0;
    while i < n
        invariant
            n == s@.len(),
            n == pat@.len(),
            0 <= i <= n,
            forall|j: int| 0 <= j < i ==> char_fits(#[trigger] s@[j], pat@[j]),
        decreases n - i,
    {
        if !char_fits_exec(s.get_char(i), pat.get_char(i)) {
            return false;
        }
        i = i + 1;
    }
    true
}

fn format_exec(t: &FieldType) -> (r: &'static str)
    ensures
        r@ == format_of(*t),
{
    match t {
        FieldType::ObjectId => "hhhhhhhhhhhhhhhhhhhhhhhh",
        FieldType::Date => "dddd-dd-dd",
        _ => "dddd-dd-ddTdd:dd:dd.dddZ",
    }
}

pub open spec fn digits_only(x: Seq<char>) -> bool {
    x.len() > 0 && forall|i: int| 0 <= i < x.len() ==> '0' <= #[trigger] x[i] <= '9'
}

/// A decimal written out: an optional minus sign, digits, and optionally a
/// point followed by digits.
pub open spec fn decimal_format(s: Seq<char>) -> bool {
    decimal_shape(unsigned_part(s))
}

/// A string without its leading minus sign, if it has one.
pub open spec fn unsigned_part(s: Seq<char>) -> Seq<char> {
    if s.len() > 0 && s[0] == '-' {
        s.subrange(1, s.len() as int)
    } else {
        s
    }
}

/// Digits, optionally a point and more digits.
pub open spec fn decimal_shape(body: Seq<char>) -> bool {
    digits_only(body) || exists|p: int|
        0 < p < body.len() && #[trigger] body[p] == '.' && digits_only(body.subrange(0, p)) && digits_only(
            body.subrange(p + 1, body.len() as int),
        )
}

fn digits_only_exec(x: &str) -> (r: bool)
    ensures
        r == digits_only(x@),
{
    let n = x.unicode_len();
    if n == 0 {
        return false;
    }
    let mut i: usize = 0;
    while i < n
        invariant
            n == x@.len(),
            0 <= i <= n,
            forall|j: int| 0 <= j < i ==> '0' <= #[trigger] x@[j] <= '9',
        decreases n - i,
    {
        let c = x.get_char(i);
        if !('0' <= c && c <= '9') {
            return false;
        }
        i = i + 1;
    }
    true
}

/// Whether a string is a decimal; see [`decimal_format`].
pub fn is_decimal(s: &str) -> (r: bool)
    ensures
        r == decimal_format(s@),
{
    let n = s.unicode_len();
    let start: usize = if n > 0 && s.get_char(0) == '-' { 1 } else { 0 };
    let body = s.substring_char(start, n);
    let ghost bv = body@;
    proof {
        assert(bv =~= unsigned_part(s@));
    }
    let m = body.unicode_len();
    if digits_only_exec(body) {
        return true;
    }
    let mut p: usize = 0;
    while p < m
        invariant
            m == bv.len(),
            bv == body@,
            bv == unsigned_part(s@),
            !digits_only(bv),
            0 <= p <= m,
            forall|q: int| 0 <= q < p ==> bv[q] != '.',
        decreases m - p,
    {
        if body.get_char(p) == '.' {
            let ok = p > 0 && p + 1 < m && digits_only_exec(body.substring_char(0, p))
                && digits_only_exec(body.substring_char(p + 1, m));
            proof {
                if ok {
                    assert(bv[p as int] == '.');
                    assert(0 < p < bv.len() && digits_only(bv.subrange(0, p as int)) && digits_only(bv.subrange(p + 1, bv.len() as int)));
                }
                if exists|q: int| 0 < q < bv.len() && #[trigger] bv[q] == '.' && digits_only(bv.subrange(0, q)) && digits_only(bv.subrange(q + 1, bv.len() as int)) {
                    let q = choose|q: int| 0 < q < bv.len() && #[trigger] bv[q] == '.' && digits_only(bv.subrange(0, q)) && digits_only(bv.subrange(q + 1, bv.len() as int));
                    if q != p {
                        if q > p {
                            assert(bv.subrange(0, q)[p as int] == '.');
                        }
                    } else {
                        assert(ok);
                    }
                }
            }
            return ok;
        }
        p = p + 1;
    }
    false
}

/// Field types whose values are integers.
pub open spec fn is_number_type(t: FieldType) -> bool {
    t is I8 || t is I16 || t is I32 || t is I64 || t is I128 || t is U8 || t is U16 || t is U32
        || t is U64 || t is U128 || t is F32 || t is F64 || t is Decimal
}

/// Whether an integer can be stored in a field of type `t` without loss:
/// a narrower integer type needs the literal to fit, floating and decimal
/// types take every integer.
pub open spec fn int_fits(t: FieldType, i: int) -> bool {
    match t {
        FieldType::I8 => i8::MIN <= i <= i8::MAX,
        FieldType::I16 => i16::MIN <= i <= i16::MAX,
        FieldType::I32 => i32::MIN <= i <= i32::MAX,
        FieldType::I64 => i64::MIN <= i <= i64::MAX,
        FieldType::I128 => i128::MIN <= i <= i128::MAX,
        FieldType::U8 => 0 <= i <= u8::MAX,
        FieldType::U16 => 0 <= i <= u16::MAX,
        FieldType::U32 => 0 <= i <= u32::MAX,
        FieldType::U64 => 0 <= i <= u64::MAX,
        FieldType::U128 => 0 <= i <= u128::MAX,
        FieldType::F32 | FieldType::F64 | FieldType::Decimal => true,
        _ => false,
    }
}

/// Whether `s` is a variant of an enum called `name`.
pub open spec fn enum_has(enums: Seq<Enum>, name: Seq<char>, s: Seq<char>) -> bool {
    exists|k: int, j: int|
        #![trigger enums[k].values@[j]]
        0 <= k < enums.len() && 0 <= j < enums[k].values@.len() && enums[k].name@ == name
            && enums[k].values@[j]@ == s
}

/// What an input value becomes in a field of type `t`, or the message
/// that rejects it. Null is accepted by optional fields only; booleans,
/// strings and enum variants must have the matching tag; integers must fit;
/// lists are checked item by item and fail with their first bad item.
pub open spec fn coerce(t: FieldType, optional: bool, v: ValueV, enums: Seq<Enum>) -> Result<ValueV, Seq<char>>
    decreases t, 0int, 0int,
{
    match v {
        ValueV::Null => if optional {
            Ok(ValueV::Null)
        } else {
            Err(msg_required())
        },
        _ => match t {
            FieldType::Bool => if v is Bool {
                Ok(v)
            } else {
                Err(msg_unexpected_type())
            },
            FieldType::String => if v is Str {
                Ok(v)
            } else {
                Err(msg_unexpected_type())
            },
            FieldType::ObjectId | FieldType::Date | FieldType::DateTime => match v {
                ValueV::Str(s) => if pattern_ok(s, format_of(t)) {
                    Ok(v)
                } else {
                    Err(msg_invalid())
                },
                _ => Err(msg_unexpected_type()),
            },
            FieldType::Enum(e) => match v {
                ValueV::Str(s) => if enum_has(enums, e@, s) {
                    Ok(v)
                } else {
                    Err(msg_enum())
                },
                _ => Err(msg_unexpected_type()),
            },
            FieldType::Vec(f) => match v {
                ValueV::List(items) => match coerce_items(f.field_type, f.is_optional(), items, enums, 0) {
                    Ok(ws) => Ok(ValueV::List(ws)),
                    Err(e) => Err(e),
                },
                _ => Err(msg_unexpected_type()),
            },
            FieldType::HashMap(f) => match v {
                ValueV::Dict(entries) => match coerce_entries(f.field_type, f.is_optional(), entries, enums, 0) {
                    Ok(ws) => Ok(ValueV::Dict(ws)),
                    Err(e) => Err(e),
                },
                _ => Err(msg_unexpected_type()),
            },
            FieldType::Decimal => match v {
                ValueV::Int(_) => Ok(v),
                ValueV::Str(s) => if decimal_format(s) {
                    Ok(v)
                } else {
                    Err(msg_invalid())
                },
                _ => Err(msg_unexpected_type()),
            },
            _ => if is_number_type(t) {
                match v {
                    ValueV::Int(i) => if int_fits(t, i) {
                        Ok(v)
                    } else {
                        Err(msg_unexpected_type())
                    },
                    _ => Err(msg_unexpected_type()),
                }
            } else {
                Err(msg_unexpected_type())
            },
        },
    }
}

/// The items of a list from position `start` on, each coerced.
pub open spec fn coerce_items(
    t: FieldType,
    optional: bool,
    items: Seq<ValueV>,
    enums: Seq<Enum>,
    start: int,
) -> Result<Seq<ValueV>, Seq<char>>
    decreases t, 1int, items.len() - start,
{
    if start < 0 || start >= items.len() {
        Ok(Seq::empty())
    } else {
        match coerce(t, optional, items[start], enums) {
            Err(e) => Err(e),
            Ok(w) => match coerce_items(t, optional, items, enums, start + 1) {
                Ok(ws) => Ok(seq![w] + ws),
                Err(e) => Err(e),
            },
        }
    }
}

/// The values of a dictionary from position `start` on, each coerced; the
/// keys stay.
pub open spec fn coerce_entries(
    t: FieldType,
    optional: bool,
    entries: Seq<(Seq<char>, ValueV)>,
    enums: Seq<Enum>,
    start: int,
) -> Result<Seq<(Seq<char>, ValueV)>, Seq<char>>
    decreases t, 1int, entries.len() - start,
{
    if start < 0 || start >= entries.len() {
        Ok(Seq::empty())
    } else {
        match coerce(t, optional, entries[start].1, enums) {
            Err(e) => Err(e),
            Ok(w) => match coerce_entries(t, optional, entries, enums, start + 1) {
                Ok(ws) => Ok(seq![(entries[start].0, w)] + ws),
                Err(e) => Err(e),
            },
        }
    }
}

pub open spec fn dict_views(items: Seq<(String, Value)>) -> Seq<(Seq<char>, ValueV)> {
    Seq::new(
        items.len(),
        |i: int| if 0 <= i < items.len() { (items[i].0@, items[i].1@) } else { (Seq::empty(), ValueV::Null) },
    )
}

pub fn unexpected_type_message() -> (r: String)
    ensures
        r@ == msg_unexpected_type(),
{
    String::from_str("Unexpected value type.")
}

pub fn required_message() -> (r: String)
    ensures
        r@ == msg_required(),
{
    String::from_str("Value is required.")
}

fn enum_contains(enums: &Vec<Enum>, name: &String, s: &String) -> (r: bool)
    ensures
        r == enum_has(enums@, name@, s@),
{
    let mut k: usize = 0;
    while k < enums.len()
        invariant
            0 <= k <= enums.len(),
            forall|a: int, j: int|
                #![trigger enums@[a].values@[j]]
                0 <= a < k && 0 <= j < enums@[a].values@.len() ==> !(enums@[a].name@ == name@
                    && enums@[a].values@[j]@ == s@),
        decreases enums.len() - k,
    {
        if enums[k].name == *name {
            let mut j: usize = 0;
            while j < enums[k].values.len()
                invariant
                    0 <= k < enums.len(),
                    enums@[k as int].name@ == name@,
                    forall|a: int, j: int|
                        #![trigger enums@[a].values@[j]]
                        0 <= a < k && 0 <= j < enums@[a].values@.len() ==> !(enums@[a].name@ == name@
                            && enums@[a].values@[j]@ == s@),
                    0 <= j <= enums@[k as int].values@.len(),
                    forall|b: int| 0 <= b < j ==> (#[trigger] enums@[k as int].values@[b])@ != s@,
                decreases enums@[k as int].values@.len() - j,
            {
                if enums[k].values[j] == *s {
                    proof {
                        assert(enums@[k as int].values@[j as int]@ == s@);
                    }
                    return true;
                }
                j = j + 1;
            }
        }
        k = k + 1;
    }
    false
}

fn int_fits_exec(t: &FieldType, i: i128) -> (r: bool)
    ensures
        r == int_fits(*t, i as int),
{
    match t {
        FieldType::I8 => i8::MIN as i128 <= i && i <= i8::MAX as i128,
        FieldType::I16 => i16::MIN as i128 <= i && i <= i16::MAX as i128,
        FieldType::I32 => i32::MIN as i128 <= i && i <= i32::MAX as i128,
        FieldType::I64 => i64::MIN as i128 <= i && i <= i64::MAX as i128,
        FieldType::I128 => true,
        FieldType::U8 => 0 <= i && i <= u8::MAX as i128,
        FieldType::U16 => 0 <= i && i <= u16::MAX as i128,
        FieldType::U32 => 0 <= i && i <= u32::MAX as i128,
        FieldType::U64 => 0 <= i && i <= u64::MAX as i128,
        FieldType::U128 => 0 <= i,
        FieldType::F32 | FieldType::F64 | FieldType::Decimal => true,
        _ => false,
    }
}

pub fn number_type(t: &FieldType) -> (r: bool)
    ensures
        r == is_number_type(*t),
{
    match t {
        FieldType::I8 | FieldType::I16 | FieldType::I32 | FieldType::I64 | FieldType::I128
        | FieldType::U8 | FieldType::U16 | FieldType::U32 | FieldType::U64 | FieldType::U128
        | FieldType::F32 | FieldType::F64 | FieldType::Decimal => true,
        _ => false,
    }
}

proof fn lemma_dict_view(v: Value)
    requires
        v is Dict,
    ensures
        v@->Dict_0 == dict_views(v->Dict_0@),
{
    assert(v@->Dict_0 =~= dict_views(v->Dict_0@));
}

proof fn lemma_list_view(v: Value)
    requires
        v is List,
    ensures
        v@->List_0 == views(v->List_0@),
{
    assert(v@->List_0 =~= views(v->List_0@));
}

/// Checks an input value against a field type; see [`coerce`].
pub fn coerce_value(t: &FieldType, optional: bool, v: &Value, enums: &Vec<Enum>) -> (r: Result<Value, String>)
    ensures
        match coerce(*t, optional, v@, enums@) {
            Ok(w) => r is Ok && r->Ok_0@ == w,
            Err(e) => r is Err && r->Err_0@ == e,
        },
    decreases *t, 0int, 0int,
{
    match v {
        Value::Null => {
            if optional {
                return Ok(Value::Null);
            } else {
                return Err(required_message());
            }
        },
        _ => {},
    }
    match t {
        FieldType::Bool => match v {
            Value::Bool(b) => Ok(Value::Bool(*b)),
            _ => Err(unexpected_type_message()),
        },
        FieldType::String => match v {
            Value::Str(s) => Ok(Value::Str(s.clone())),
            _ => Err(unexpected_type_message()),
        },
        FieldType::ObjectId | FieldType::Date | FieldType::DateTime => match v {
            Value::Str(s) => {
                if fits_pattern(s.as_str(), format_exec(t)) {
                    Ok(Value::Str(s.clone()))
                } else {
                    Err(String::from_str("Value is invalid."))
                }
            },
            _ => Err(unexpected_type_message()),
        },
        FieldType::Enum(e) => match v {
            Value::Str(s) => {
                if enum_contains(enums, e, s) {
                    Ok(Value::Str(s.clone()))
                } else {
                    Err(String::from_str("Enum value is unexpected."))
                }
            },
            _ => Err(unexpected_type_message()),
        },
        FieldType::Vec(f) => match v {
            Value::List(items) => {
                proof {
                    lemma_list_view(*v);
                    assert(decreases_to!(*t => f.field_type));
                }
                match coerce_list(&f.field_type, f.optional(), items, enums, 0) {
                    Ok(ws) => {
                        let r = Value::List(ws);
                        proof {
                            lemma_list_view(r);
                        }
                        Ok(r)
                    },
                    Err(e) => Err(e),
                }
            },
            _ => Err(unexpected_type_message()),
        },
        FieldType::HashMap(f) => match v {
            Value::Dict(entries) => {
                proof {
                    lemma_dict_view(*v);
                    assert(decreases_to!(*t => f.field_type));
                }
                match coerce_dict(&f.field_type, f.optional(), entries, enums, 0) {
                    Ok(ws) => {
                        let r = Value::Dict(ws);
                        proof {
                            lemma_dict_view(r);
                        }
                        Ok(r)
                    },
                    Err(e) => Err(e),
                }
            },
            _ => Err(unexpected_type_message()),
        },
        FieldType::Decimal => match v {
            Value::Int(i) => Ok(Value::Int(*i)),
            Value::Str(s) => {
                if is_decimal(s.as_str()) {
                    Ok(Value::Str(s.clone()))
                } else {
                    Err(String::from_str("Value is invalid."))
                }
            },
            _ => Err(unexpected_type_message()),
        },
        _ => {
            if number_type(t) {
                match v {
                    Value::Int(i) => {
                        if int_fits_exec(t, *i) {
                            Ok(Value::Int(*i))
                        } else {
                            Err(unexpected_type_message())
                        }
                    },
                    _ => Err(unexpected_type_message()),
                }
            } else {
                Err(unexpected_type_message())
            }
        },
    }
}

/// Checks the items of a list from position `start` on; see [`coerce_items`].
pub fn coerce_list(
    t: &FieldType,
    optional: bool,
    items: &Vec<Value>,
    enums: &Vec<Enum>,
    start: usize,
) -> (r: Result<Vec<Value>, String>)
    requires
        start <= items@.len(),
    ensures
        match coerce_items(*t, optional, views(items@), enums@, start as int) {
            Ok(ws) => r is Ok && views(r->Ok_0@) == ws,
            Err(e) => r is Err && r->Err_0@ == e,
        },
    decreases *t, 1int, items@.len() - start,
{
    if start >= items.len() {
        let out: Vec<Value> = Vec::new();
        proof {
            assert(views(out@) =~= Seq::<ValueV>::empty());
        }
        return Ok(out);
    }
    match coerce_value(t, optional, &items[start], enums) {
        Err(e) => Err(e),
        Ok(w) => match coerce_list(t, optional, items, enums, start + 1) {
            Err(e) => Err(e),
            Ok(rest) => {
                let ghost rv = views(rest@);
                let ghost wv = w@;
                let mut out = rest;
                out.insert(0, w);
                proof {
                    assert(views(out@) =~= seq![wv] + rv);
                }
                Ok(out)
            },
        },
    }
}

/// Checks the values of a dictionary from position `start` on; see
/// [`coerce_entries`].
pub fn coerce_dict(
    t: &FieldType,
    optional: bool,
    entries: &Vec<(String, Value)>,
    enums: &Vec<Enum>,
    start: usize,
) -> (r: Result<Vec<(String, Value)>, String>)
    requires
        start <= entries@.len(),
    ensures
        match coerce_entries(*t, optional, dict_views(entries@), enums@, start as int) {
            Ok(ws) => r is Ok && dict_views(r->Ok_0@) == ws,
            Err(e) => r is Err && r->Err_0@ == e,
        },
    decreases *t, 1int, entries@.len() - start,
{
    if start >= entries.len() {
        let out: Vec<(String, Value)> = Vec::new();
        proof {
            assert(dict_views(out@) =~= Seq::<(Seq<char>, ValueV)>::empty());
        }
        return Ok(out);
    }
    match coerce_value(t, optional, &entries[start].1, enums) {
        Err(e) => Err(e),
        Ok(w) => match coerce_dict(t, optional, entries, enums, start + 1) {
            Err(e) => Err(e),
            Ok(rest) => {
                let ghost rv = dict_views(rest@);
                let ghost wv = (entries@[start as int].0@, w@);
                let mut out = rest;
                out.insert(0, (entries[start].0.clone(), w));
                proof {
                    assert(dict_views(out@) =~= seq![wv] + rv);
                }
                Ok(out)
            },
        },
    }
}

} // verus!
