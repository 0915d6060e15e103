use vstd::prelude::*;
use crate::coerce::is_number_type;
use crate::field::FieldType;
use crate::text::concat;
use crate::value::{Value, ValueV};

verus! {

/// The lower-case hexadecimal digit for `d`.
pub open spec fn hex_char(d: int) -> Seq<char> {
    if d == 0 {
        "0"@
    } else if d == 1 {
        "1"@
    } else if d == 2 {
        "2"@
    } else if d == 3 {
        "3"@
    } else if d == 4 {
        "4"@
    } else if d == 5 {
        "5"@
    } else if d == 6 {
        "6"@
    } else if d == 7 {
        "7"@
    } else if d == 8 {
        "8"@
    } else if d == 9 {
        "9"@
    } else if d == 10 {
        "a"@
    } else if d == 11 {
        "b"@
    } else if d == 12 {
        "c"@
    } else if d == 13 {
        "d"@
    } else if d == 14 {
        "e"@
    } else {
        "f"@
    }
}

/// The last `k` hexadecimal digits of `n`, most significant first.
pub open spec fn hex_digits(n: nat, k: nat) -> Seq<char>
    decreases k,
{
    if k == 0 {
        Seq::empty()
    } else {
        hex_digits(n / 16, (k - 1) as nat) + hex_char((n % 16) as int)
    }
}

/// The value a database gives a field that it assigns, from identifier
/// `id`: object ids and strings get the identifier as 24 hexadecimal
/// digits, numeric fields the identifier itself; other types get none.
pub open spec fn assigned_value(t: FieldType, id: nat) -> ValueV {
    match t {
        FieldType::ObjectId | FieldType::String => ValueV::Str(hex_digits(id, 24)),
        _ => if is_number_type(t) {
            ValueV::Int(id as int)
        } else {
            ValueV::Null
        },
    }
}

fn hex_char_exec(d: u128) -> (r: &'static str)
    requires
        d < 16,
    ensures
        r@ == hex_char(d as int),
{
    if d == 0 {
        "0"
    } else if d == 1 {
        "1"
    } else if d == 2 {
        "2"
    } else if d == 3 {
        "3"
    } else if d == 4 {
        "4"
    } else if d == 5 {
        "5"
    } else if d == 6 {
        "6"
    } else if d == 7 {
        "7"
    } else if d == 8 {
        "8"
    } else if d == 9 {
        "9"
    } else if d == 10 {
        "a"
    } else if d == 11 {
        "b"
    } else if d == 12 {
        "c"
    } else if d == 13 {
        "d"
    } else if d == 14 {
        "e"
    } else {
        "f"
    }
}

/// The last `k` hexadecimal digits of `n`; see [`hex_digits`].
pub fn hex_string(n: u128, k: u32) -> (r: String)
    ensures
        r@ == hex_digits(n as nat, k as nat),
    decreases k,
{
    if k == 0 {
        return String::new();
    }
    let high = hex_string(n / 16, k - 1);
    concat(high.as_str(), hex_char_exec(n % 16))
}

/// The value a database assigns to a field of type `t`; see
/// [`assigned_value`].
pub fn assigned_value_exec(t: &FieldType, id: i128) -> (r: Value)
    requires
        id >= 0,
    ensures
        r@ == assigned_value(*t, id as nat),
{
    match t {
        FieldType::ObjectId | FieldType::String => Value::Str(hex_string(id as u128, 24)),
        _ => {
            if crate::coerce::number_type(t) {
                Value::Int(id)
            } else {
                Value::Null
            }
        },
    }
}

} // verus!
