use vstd::prelude::*;
use crate::coerce::views;
use crate::error::{ActionError, ErrorKind};
use crate::field::{Field, QueryAbility};
use crate::filter::{contains_seq, ends_with, holds, Cond, Where};
use crate::store::{first_field, first_pos};
use crate::text::str_eq;
use crate::url::starts_with;
use crate::value::{Value, ValueV};

verus! {

/// Whether an operator name with its argument is well formed.
pub open spec fn op_ok(name: Seq<char>, arg: ValueV) -> bool {
    if name == "equals"@ || name == "not"@ {
        true
    } else if name == "in"@ || name == "notIn"@ {
        arg is List
    } else if name == "lt"@ || name == "lte"@ || name == "gt"@ || name == "gte"@ {
        arg is Int
    } else if name == "contains"@ || name == "startsWith"@ || name == "endsWith"@ {
        arg is Str
    } else {
        false
    }
}

/// Whether an operator holds of a field value.
pub open spec fn op_holds(name: Seq<char>, arg: ValueV, v: ValueV) -> bool {
    if name == "equals"@ {
        v == arg
    } else if name == "not"@ {
        v != arg
    } else if name == "in"@ {
        arg->List_0.contains(v)
    } else if name == "notIn"@ {
        !arg->List_0.contains(v)
    } else if name == "lt"@ {
        v matches ValueV::Int(i) && i < arg->Int_0
    } else if name == "lte"@ {
        v matches ValueV::Int(i) && i <= arg->Int_0
    } else if name == "gt"@ {
        v matches ValueV::Int(i) && i > arg->Int_0
    } else if name == "gte"@ {
        v matches ValueV::Int(i) && i >= arg->Int_0
    } else if name == "contains"@ {
        v matches ValueV::Str(s) && contains_seq(s, arg->Str_0)
    } else if name == "startsWith"@ {
        v matches ValueV::Str(s) && starts_with(s, arg->Str_0)
    } else {
        v matches ValueV::Str(s) && ends_with(s, arg->Str_0)
    }
}

/// A clause on one field: an object of operators, all of which must hold,
/// or a bare value that the field must equal.
pub open spec fn clause_ok(v: ValueV) -> bool {
    match v {
        ValueV::Dict(ops) => forall|j: int| 0 <= j < ops.len() ==> op_ok((#[trigger] ops[j]).0, ops[j].1),
        _ => true,
    }
}

pub open spec fn clause_holds(v: ValueV, field_value: ValueV) -> bool {
    match v {
        ValueV::Dict(ops) => forall|j: int| 0 <= j < ops.len() ==> op_holds((#[trigger] ops[j]).0, ops[j].1, field_value),
        _ => field_value == v,
    }
}

pub open spec fn is_combinator(k: Seq<char>) -> bool {
    k == "AND"@ || k == "OR"@ || k == "NOT"@
}

/// A `where` document is well formed: an object whose keys are `AND`, `OR`
/// or `NOT` (with an object or a list of objects) or queryable fields (with
/// a clause).
pub open spec fn where_ok(fields: Seq<Field>, q: ValueV) -> bool
    decreases q,
{
    match q {
        ValueV::Dict(es) => forall|e: int|
            0 <= e < es.len() ==> {
                let k = (#[trigger] es[e]).0;
                let v = es[e].1;
                if is_combinator(k) {
                    match v {
                        ValueV::List(items) => forall|j: int| 0 <= j < items.len() ==> where_ok(fields, #[trigger] items[j]),
                        ValueV::Dict(_) => where_ok(fields, v),
                        _ => false,
                    }
                } else {
                    match first_pos(fields, k, 0) {
                        Some(i) => fields[i].query_ability == QueryAbility::Queryable && clause_ok(v),
                        None => false,
                    }
                }
            },
        _ => false,
    }
}

/// What a `where` document selects: every key's condition holds. `AND`
/// needs all its filters, `OR` one of them, `NOT` none of them.
pub open spec fn where_holds(fields: Seq<Field>, q: ValueV, row: Seq<ValueV>) -> bool
    decreases q,
{
    match q {
        ValueV::Dict(es) => forall|e: int|
            0 <= e < es.len() ==> {
                let k = (#[trigger] es[e]).0;
                let v = es[e].1;
                if k == "AND"@ {
                    match v {
                        ValueV::List(items) => forall|j: int| 0 <= j < items.len() ==> where_holds(fields, #[trigger] items[j], row),
                        _ => where_holds(fields, v, row),
                    }
                } else if k == "OR"@ {
                    match v {
                        ValueV::List(items) => exists|j: int| 0 <= j < items.len() && where_holds(fields, #[trigger] items[j], row),
                        _ => where_holds(fields, v, row),
                    }
                } else if k == "NOT"@ {
                    match v {
                        ValueV::List(items) => forall|j: int| 0 <= j < items.len() ==> !where_holds(fields, #[trigger] items[j], row),
                        _ => !where_holds(fields, v, row),
                    }
                } else {
                    match first_pos(fields, k, 0) {
                        Some(i) => 0 <= i < row.len() && clause_holds(v, row[i]),
                        None => false,
                    }
                }
            },
        _ => false,
    }
}

/// One entry of a `where` document is well formed; see [`where_ok`].
pub open spec fn entry_ok(fields: Seq<Field>, k: Seq<char>, v: ValueV) -> bool {
    if is_combinator(k) {
        match v {
            ValueV::List(items) => forall|j: int| 0 <= j < items.len() ==> where_ok(fields, #[trigger] items[j]),
            ValueV::Dict(_) => where_ok(fields, v),
            _ => false,
        }
    } else {
        match first_pos(fields, k, 0) {
            Some(i) => fields[i].query_ability == QueryAbility::Queryable && clause_ok(v),
            None => false,
        }
    }
}

/// One entry of a `where` document holds of a row; see [`where_holds`].
pub open spec fn entry_holds(fields: Seq<Field>, k: Seq<char>, v: ValueV, row: Seq<ValueV>) -> bool {
    if k == "AND"@ {
        match v {
            ValueV::List(items) => forall|j: int| 0 <= j < items.len() ==> where_holds(fields, #[trigger] items[j], row),
            _ => where_holds(fields, v, row),
        }
    } else if k == "OR"@ {
        match v {
            ValueV::List(items) => exists|j: int| 0 <= j < items.len() && where_holds(fields, #[trigger] items[j], row),
            _ => where_holds(fields, v, row),
        }
    } else if k == "NOT"@ {
        match v {
            ValueV::List(items) => forall|j: int| 0 <= j < items.len() ==> !where_holds(fields, #[trigger] items[j], row),
            _ => !where_holds(fields, v, row),
        }
    } else {
        match first_pos(fields, k, 0) {
            Some(i) => 0 <= i < row.len() && clause_holds(v, row[i]),
            None => false,
        }
    }
}

proof fn lemma_where_unfold(fields: Seq<Field>, q: ValueV)
    requires
        q is Dict,
    ensures
        where_ok(fields, q) == forall|e: int| 0 <= e < q->Dict_0.len() ==> entry_ok(fields, (#[trigger] q->Dict_0[e]).0, q->Dict_0[e].1),
        forall|row: Seq<ValueV>| #[trigger] where_holds(fields, q, row) == forall|e: int| 0 <= e < q->Dict_0.len() ==> entry_holds(fields, (#[trigger] q->Dict_0[e]).0, q->Dict_0[e].1, row),
{
    let es = q->Dict_0;
    assert forall|e: int| 0 <= e < es.len() implies decreases_to!(q => #[trigger] es[e].1) by {
        assert(decreases_to!(q => q->Dict_0));
        assert(decreases_to!(es => es[e]));
        assert(decreases_to!(es[e] => es[e].1));
    }
    assert forall|e: int, j: int| 0 <= e < es.len() && es[e].1 is List && 0 <= j < es[e].1->List_0.len() implies decreases_to!(q => #[trigger] es[e].1->List_0[j]) by {
        let v = es[e].1;
        assert(decreases_to!(v => v->List_0));
        assert(decreases_to!(v->List_0 => v->List_0[j]));
    }
}

fn clone_values(items: &Vec<Value>) -> (r: Vec<Value>)
    ensures
        views(r@) == views(items@),
{
    let mut out: Vec<Value> = Vec::new();
    let mut i: usize = 0;
    while i < items.len()
        invariant
            0 <= i <= items.len(),
            out@.len() == i,
            forall|j: int| 0 <= j < i ==> (#[trigger] out@[j])@ == items@[j]@,
        decreases items.len() - i,
    {
        out.push(items[i].deep_clone());
        i = i + 1;
    }
    proof {
        assert(views(out@) =~= views(items@));
    }
    out
}

/// The operator that a name and argument stand for.
fn compile_op(name: &str, arg: &Value) -> (r: Option<Cond>)
    ensures
        r is Some <==> op_ok(name@, arg@),
        r matches Some(c) ==> forall|v: ValueV| #[trigger] crate::filter::cond_holds(c, v) == op_holds(name@, arg@, v),
{
    if str_eq(name, "equals") {
        return Some(Cond::Equals(arg.deep_clone()));
    }
    if str_eq(name, "not") {
        return Some(Cond::Not(arg.deep_clone()));
    }
    let is_in = str_eq(name, "in");
    let is_not_in = str_eq(name, "notIn");
    if is_in || is_not_in {
        return match arg {
            Value::List(items) => {
                let xs = clone_values(items);
                proof {
                    assert(op_ok(name@, arg@));
                }
                proof {
                    assert(arg@->List_0 =~= views(items@));
                    assert forall|v: ValueV| (exists|j: int| 0 <= j < xs@.len() && (#[trigger] xs@[j])@ == v) == arg@->List_0.contains(v) by {
                        if arg@->List_0.contains(v) {
                            let j = choose|j: int| 0 <= j < arg@->List_0.len() && arg@->List_0[j] == v;
                            assert(views(xs@)[j] == xs@[j]@);
                        }
                        if exists|j: int| 0 <= j < xs@.len() && (#[trigger] xs@[j])@ == v {
                            let j = choose|j: int| 0 <= j < xs@.len() && (#[trigger] xs@[j])@ == v;
                            assert(views(xs@)[j] == xs@[j]@);
                            assert(arg@->List_0[j] == v);
                        }
                    }
                }
                if is_in {
                    Some(Cond::In(xs))
                } else {
                    Some(Cond::NotIn(xs))
                }
            },
            _ => {
                None
            },
        };
    }
    if str_eq(name, "lt") || str_eq(name, "lte") || str_eq(name, "gt") || str_eq(name, "gte") {
        return match arg {
            Value::Int(n) => {
                if str_eq(name, "lt") {
                    Some(Cond::Lt(*n))
                } else if str_eq(name, "lte") {
                    Some(Cond::Lte(*n))
                } else if str_eq(name, "gt") {
                    Some(Cond::Gt(*n))
                } else {
                    Some(Cond::Gte(*n))
                }
            },
            _ => None,
        };
    }
    if str_eq(name, "contains") || str_eq(name, "startsWith") || str_eq(name, "endsWith") {
        return match arg {
            Value::Str(p) => {
                if str_eq(name, "contains") {
                    Some(Cond::Contains(p.clone()))
                } else if str_eq(name, "startsWith") {
                    Some(Cond::StartsWith(p.clone()))
                } else {
                    Some(Cond::EndsWith(p.clone()))
                }
            },
            _ => None,
        };
    }
    None
}

/// The filter for a clause on field `i`.
fn compile_clause(i: usize, v: &Value) -> (r: Option<Where>)
    ensures
        r is Some <==> clause_ok(v@),
        r matches Some(w) ==> forall|row: Seq<ValueV>| #[trigger] holds(w, row) == (0 <= i < row.len() && clause_holds(v@, row[i as int])),
{
    match v {
        Value::Dict(ops) => {
            let ghost ov = v@->Dict_0;
            proof {
                assert forall|j: int| 0 <= j < ops@.len() implies #[trigger] ov[j] == (ops@[j].0@, ops@[j].1@) by {}
            }
            let mut cs: Vec<Cond> = Vec::new();
            let mut j: usize = 0;
            while j < ops.len()
                invariant
                    0 <= j <= ops@.len(),
                    *v == Value::Dict(*ops),
                    ov == v@->Dict_0,
                    ov.len() == ops@.len(),
                    forall|x: int| 0 <= x < ops@.len() ==> #[trigger] ov[x] == (ops@[x].0@, ops@[x].1@),
                    cs@.len() == j,
                    forall|x: int| 0 <= x < j ==> op_ok((#[trigger] ov[x]).0, ov[x].1),
                    forall|x: int, fv: ValueV| 0 <= x < j ==> #[trigger] crate::filter::cond_holds(cs@[x], fv) == op_holds(ov[x].0, ov[x].1, fv),
                decreases ops@.len() - j,
            {
                match compile_op(ops[j].0.as_str(), &ops[j].1) {
                    Some(c) => {
                        cs.push(c);
                    },
                    None => {
                        proof {
                            assert(!op_ok(ov[j as int].0, ov[j as int].1));
                        }
                        return None;
                    },
                }
                j = j + 1;
            }
            let w = Where::Field(i, cs);
            proof {
                assert forall|row: Seq<ValueV>| #[trigger] holds(w, row) == (0 <= i < row.len() && clause_holds(v@, row[i as int])) by {
                    if 0 <= i < row.len() {
                        if clause_holds(v@, row[i as int]) {
                            assert forall|x: int| 0 <= x < cs@.len() implies crate::filter::cond_holds(#[trigger] cs@[x], row[i as int]) by {
                                assert(op_holds(ov[x].0, ov[x].1, row[i as int]));
                            }
                        }
                        if holds(w, row) {
                            assert forall|x: int| 0 <= x < ov.len() implies op_holds((#[trigger] ov[x]).0, ov[x].1, row[i as int]) by {
                                assert(crate::filter::cond_holds(cs@[x], row[i as int]));
                            }
                        }
                    }
                }
            }
            Some(w)
        },
        _ => {
            let mut cs: Vec<Cond> = Vec::new();
            cs.push(Cond::Equals(v.deep_clone()));
            let w = Where::Field(i, cs);
            proof {
                assert forall|row: Seq<ValueV>| #[trigger] holds(w, row) == (0 <= i < row.len() && clause_holds(v@, row[i as int])) by {
                    if 0 <= i < row.len() && holds(w, row) {
                        assert(crate::filter::cond_holds(cs@[0], row[i as int]));
                    }
                }
            }
            Some(w)
        },
    }
}

fn where_error() -> (r: ActionError)
    ensures
        r.kind == ErrorKind::UnexpectedInputValue,
{
    ActionError::simple(ErrorKind::UnexpectedInputValue, "Where filter is invalid.")
}

/// Compiles a `where` document into a filter over the fields of a model.
/// It fails exactly on documents that are not well formed; the filter
/// selects exactly the rows the document describes.
pub fn compile_where(fields: &Vec<Field>, q: &Value) -> (r: Result<Where, ActionError>)
    ensures
        r is Ok <==> where_ok(fields@, q@),
        r matches Ok(w) ==> forall|row: Seq<ValueV>| #[trigger] holds(w, row) == where_holds(fields@, q@, row),
    decreases q,
{
    let es = match q {
        Value::Dict(es) => es,
        _ => return Err(where_error()),
    };
    let ghost ev = q@->Dict_0;
    proof {
        lemma_where_unfold(fields@, q@);
        assert forall|e: int| 0 <= e < es@.len() implies #[trigger] ev[e] == (es@[e].0@, es@[e].1@) by {}
    }
    let mut parts: Vec<Where> = Vec::new();
    let mut e: usize = 0;
    while e < es.len()
        invariant
            0 <= e <= es@.len(),
            *q == Value::Dict(*es),
            ev == q@->Dict_0,
            ev.len() == es@.len(),
            forall|x: int| 0 <= x < es@.len() ==> #[trigger] ev[x] == (es@[x].0@, es@[x].1@),
            parts@.len() == e,
            forall|x: int| 0 <= x < e ==> entry_ok(fields@, (#[trigger] ev[x]).0, ev[x].1),
            forall|x: int, row: Seq<ValueV>| 0 <= x < e ==> #[trigger] holds(parts@[x], row) == entry_holds(fields@, ev[x].0, ev[x].1, row),
        decreases es@.len() - e,
    {
        proof {
            vstd::std_specs::vec::axiom_vec_index_decreases(*es, e as int);
            assert(decreases_to!(*q => q->Dict_0));
        }
        let key = es[e].0.as_str();
        let v = &es[e].1;
        let is_and = str_eq(key, "AND");
        let is_or = str_eq(key, "OR");
        let is_not = str_eq(key, "NOT");
        let part = if is_and || is_or || is_not {
            match v {
                Value::List(items) => {
                    proof {
                        assert(v@->List_0 =~= views(items@));
                    }
                    let mut subs: Vec<Where> = Vec::new();
                    let mut j: usize = 0;
                    while j < items.len()
                        invariant
                            0 <= j <= items@.len(),
                            *v == Value::List(*items),
                            *q == Value::Dict(*es),
                            e < es@.len(),
                            es@[e as int].1 == *v,
                            v@->List_0 == views(items@),
                            ev == q@->Dict_0,
                            ev[e as int].1 == v@,
                            ev[e as int].0 == key@,
                            is_combinator(key@),
                            is_and == (key@ == "AND"@),
                            is_or == (key@ == "OR"@),
                            is_not == (key@ == "NOT"@),
                            subs@.len() == j,
                            forall|x: int| 0 <= x < j ==> where_ok(fields@, (#[trigger] items@[x])@),
                            forall|x: int, row: Seq<ValueV>| 0 <= x < j ==> #[trigger] holds(subs@[x], row) == where_holds(fields@, items@[x]@, row),
                        decreases items@.len() - j,
                    {
                        proof {
                            vstd::std_specs::vec::axiom_vec_index_decreases(*items, j as int);
                            vstd::std_specs::vec::axiom_vec_index_decreases(*es, e as int);
                            assert(decreases_to!(*q => q->Dict_0));
                            assert(decreases_to!(es@[e as int] => es@[e as int].1));
                            assert(decreases_to!(*v => v->List_0));
                        }
                        match compile_where(fields, &items[j]) {
                            Ok(w) => {
                                subs.push(w);
                            },
                            Err(err) => {
                                proof {
                                    assert(views(items@)[j as int] == items@[j as int]@);
                                    assert(!entry_ok(fields@, ev[e as int].0, ev[e as int].1));
                                }
                                return Err(err);
                            },
                        }
                        j = j + 1;
                    }
                    let ghost iv = views(items@);
                    proof {
                        assert forall|x: int| 0 <= x < items@.len() implies #[trigger] iv[x] == items@[x]@ by {}
                        assert(v@ == ValueV::List(iv));
                    }
                    if is_and {
                        let w = Where::And(subs);
                        proof {
                            assert forall|row: Seq<ValueV>| #[trigger] holds(w, row) == entry_holds(fields@, ev[e as int].0, ev[e as int].1, row) by {
                                crate::filter::lemma_and_holds(w, row);
                                assert(w->And_0 == subs);
                                if holds(w, row) {
                                    assert forall|x: int| 0 <= x < iv.len() implies where_holds(fields@, #[trigger] iv[x], row) by {
                                        assert(holds(subs@[x], row));
                                    }
                                }
                                if entry_holds(fields@, ev[e as int].0, ev[e as int].1, row) {
                                    assert forall|x: int| 0 <= x < subs@.len() implies holds(#[trigger] subs@[x], row) by {
                                        assert(where_holds(fields@, iv[x], row));
                                    }
                                }
                            }
                        }
                        w
                    } else if is_or {
                        let w = Where::Or(subs);
                        proof {
                            assert forall|row: Seq<ValueV>| #[trigger] holds(w, row) == entry_holds(fields@, ev[e as int].0, ev[e as int].1, row) by {
                                crate::filter::lemma_or_holds(w, row);
                                assert(w->Or_0 == subs);
                                if holds(w, row) {
                                    let x = choose|x: int| 0 <= x < subs@.len() && holds(#[trigger] subs@[x], row);
                                    assert(where_holds(fields@, iv[x], row));
                                }
                                if entry_holds(fields@, ev[e as int].0, ev[e as int].1, row) {
                                    let x = choose|x: int| 0 <= x < iv.len() && where_holds(fields@, #[trigger] iv[x], row);
                                    assert(holds(subs@[x], row));
                                }
                            }
                        }
                        w
                    } else {
                        let w = Where::Not(subs);
                        proof {
                            assert forall|row: Seq<ValueV>| #[trigger] holds(w, row) == entry_holds(fields@, ev[e as int].0, ev[e as int].1, row) by {
                                crate::filter::lemma_not_holds(w, row);
                                assert(w->Not_0 == subs);
                                if holds(w, row) {
                                    assert forall|x: int| 0 <= x < iv.len() implies !where_holds(fields@, #[trigger] iv[x], row) by {
                                        assert(!holds(subs@[x], row));
                                    }
                                }
                                if entry_holds(fields@, ev[e as int].0, ev[e as int].1, row) {
                                    assert forall|x: int| 0 <= x < subs@.len() implies !holds(#[trigger] subs@[x], row) by {
                                        assert(!where_holds(fields@, iv[x], row));
                                    }
                                }
                            }
                        }
                        w
                    }
                },
                Value::Dict(_) => {
                    proof {
                        vstd::std_specs::vec::axiom_vec_index_decreases(*es, e as int);
                        assert(decreases_to!(es@[e as int] => es@[e as int].1));
                    }
                    let sub = match compile_where(fields, v) {
                        Ok(w) => w,
                        Err(err) => return Err(err),
                    };
                    let ghost sub_g = sub;
                    let mut subs: Vec<Where> = Vec::new();
                    subs.push(sub);
                    if is_and || is_or {
                        let w = Where::And(subs);
                        proof {
                            assert forall|row: Seq<ValueV>| #[trigger] holds(w, row) == entry_holds(fields@, ev[e as int].0, ev[e as int].1, row) by {
                                crate::filter::lemma_and_holds(w, row);
                                assert(w->And_0@ =~= seq![sub_g]);
                                assert(holds(w->And_0@[0], row) == holds(sub_g, row));
                            }
                        }
                        w
                    } else {
                        let w = Where::Not(subs);
                        proof {
                            assert forall|row: Seq<ValueV>| #[trigger] holds(w, row) == entry_holds(fields@, ev[e as int].0, ev[e as int].1, row) by {
                                crate::filter::lemma_not_holds(w, row);
                                assert(w->Not_0@ =~= seq![sub_g]);
                                assert(holds(w->Not_0@[0], row) == holds(sub_g, row));
                            }
                        }
                        w
                    }
                },
                _ => {
                    return Err(where_error());
                },
            }
        } else {
            let i = match first_field(fields, key) {
                Some(i) => i,
                None => return Err(where_error()),
            };
            if fields[i].query_ability != QueryAbility::Queryable {
                return Err(where_error());
            }
            match compile_clause(i, v) {
                Some(w) => w,
                None => return Err(where_error()),
            }
        };
        parts.push(part);
        e = e + 1;
    }
    let w = Where::And(parts);
    proof {
        assert forall|row: Seq<ValueV>| #[trigger] holds(w, row) == where_holds(fields@, q@, row) by {
            crate::filter::lemma_and_holds(w, row);
            assert(w->And_0 == parts);
            assert(where_holds(fields@, q@, row) == forall|x: int| 0 <= x < ev.len() ==> entry_holds(fields@, (#[trigger] ev[x]).0, ev[x].1, row));
            if where_holds(fields@, q@, row) {
                assert forall|x: int| 0 <= x < parts@.len() implies holds(#[trigger] parts@[x], row) by {
                    assert(entry_holds(fields@, ev[x].0, ev[x].1, row));
                }
            }
            if holds(w, row) {
                assert forall|x: int| 0 <= x < ev.len() implies entry_holds(fields@, (#[trigger] ev[x]).0, ev[x].1, row) by {
                    assert(holds(parts@[x], row));
                }
            }
        }
    }
    Ok(w)
}

/// The direction of one sort key.
#[derive(PartialEq, Eq, Structural, Clone, Copy, Debug)]
pub enum SortOrder {
    Asc,
    Desc,
}

pub open spec fn order_has(order: Seq<(usize, SortOrder)>, f: int) -> bool {
    exists|k: int| 0 <= k < order.len() && (#[trigger] order[k]).0 == f
}

/// An order names every field of some unique index, so no two distinct
/// rows compare equal under it.
pub open spec fn order_is_superkey(fields: Seq<Field>, order: Seq<(usize, SortOrder)>) -> bool {
    ||| crate::unique::has_primary(fields) && forall|j: int| 0 <= j < fields.len() && (#[trigger] fields[j]).primary ==> order_has(order, j)
    ||| exists|i: int| 0 <= i < fields.len() && (#[trigger] fields[i]).index is Unique && order_has(order, i)
    ||| exists|i: int|
        0 <= i < fields.len() && (#[trigger] fields[i]).index is CompoundUnique && forall|j: int|
            0 <= j < fields.len() && #[trigger] crate::unique::same_compound(fields, i, j) ==> order_has(order, j)
}

/// The primary fields among the first `n` that the order does not name,
/// ascending, in field order.
pub open spec fn primary_tail(fields: Seq<Field>, order: Seq<(usize, SortOrder)>, n: int) -> Seq<(usize, SortOrder)>
    decreases n,
{
    if n <= 0 {
        Seq::empty()
    } else {
        let prev = primary_tail(fields, order, n - 1);
        if fields[n - 1].primary && !order_has(order, n - 1) {
            prev.push(((n - 1) as usize, SortOrder::Asc))
        } else {
            prev
        }
    }
}

fn order_has_exec(order: &Vec<(usize, SortOrder)>, f: usize) -> (r: bool)
    ensures
        r == order_has(order@, f as int),
{
    let mut k: usize = 0;
    while k < order.len()
        invariant
            0 <= k <= order@.len(),
            forall|a: int| 0 <= a < k ==> (#[trigger] order@[a]).0 != f,
        decreases order@.len() - k,
    {
        if order[k].0 == f {
            proof {
                assert(order@[k as int].0 == f);
            }
            return true;
        }
        k = k + 1;
    }
    false
}

/// Whether an order names every field of some unique index; see
/// [`order_is_superkey`].
pub fn superkey(fields: &Vec<Field>, order: &Vec<(usize, SortOrder)>) -> (r: bool)
    ensures
        r == order_is_superkey(fields@, order@),
{
    let n = fields.len();
    let mut any_primary = false;
    let mut all_primary = true;
    let mut j: usize = 0;
    while j < n
        invariant
            0 <= j <= n,
            n == fields@.len(),
            any_primary == exists|a: int| 0 <= a < j && (#[trigger] fields@[a]).primary,
            all_primary == forall|a: int| 0 <= a < j && (#[trigger] fields@[a]).primary ==> order_has(order@, a),
        decreases n - j,
    {
        if fields[j].primary {
            any_primary = true;
            if !order_has_exec(order, j) {
                all_primary = false;
            }
        }
        j = j + 1;
    }
    if any_primary && all_primary {
        return true;
    }
    let mut i: usize = 0;
    while i < n
        invariant
            0 <= i <= n,
            n == fields@.len(),
            !(crate::unique::has_primary(fields@) && forall|a: int| 0 <= a < n && (#[trigger] fields@[a]).primary ==> order_has(order@, a)),
            forall|a: int| 0 <= a < i ==> !((#[trigger] fields@[a]).index is Unique && order_has(order@, a)),
            forall|a: int| 0 <= a < i ==> !((#[trigger] fields@[a]).index is CompoundUnique && forall|b: int|
                0 <= b < n && #[trigger] crate::unique::same_compound(fields@, a, b) ==> order_has(order@, b)),
        decreases n - i,
    {
        match &fields[i].index {
            crate::field::FieldIndex::Unique => {
                if order_has_exec(order, i) {
                    return true;
                }
            },
            crate::field::FieldIndex::CompoundUnique(key) => {
                let mut every = true;
                let mut b: usize = 0;
                while b < n
                    invariant
                        0 <= b <= n,
                        n == fields@.len(),
                        i < n,
                        fields@[i as int].index matches crate::field::FieldIndex::CompoundUnique(k) && k@ == key@,
                        every == forall|c: int| 0 <= c < b && #[trigger] crate::unique::same_compound(fields@, i as int, c) ==> order_has(order@, c),
                    decreases n - b,
                {
                    let same = match &fields[b].index {
                        crate::field::FieldIndex::CompoundUnique(other) => *other == *key,
                        _ => false,
                    };
                    proof {
                        assert(same == crate::unique::same_compound(fields@, i as int, b as int));
                    }
                    if same && !order_has_exec(order, b) {
                        every = false;
                    }
                    b = b + 1;
                }
                if every {
                    return true;
                }
            },
            _ => {},
        }
        i = i + 1;
    }
    false
}

/// Makes an order total: when it does not already name a whole unique
/// index, the primary fields it leaves out are appended in ascending order.
pub fn complete_order_by(fields: &Vec<Field>, order: &Vec<(usize, SortOrder)>) -> (r: Vec<(usize, SortOrder)>)
    ensures
        order_is_superkey(fields@, order@) ==> r@ == order@,
        !order_is_superkey(fields@, order@) ==> r@ == order@ + primary_tail(fields@, order@, fields@.len() as int),
{
    let mut out: Vec<(usize, SortOrder)> = Vec::new();
    let mut k: usize = 0;
    while k < order.len()
        invariant
            0 <= k <= order@.len(),
            out@ == order@.subrange(0, k as int),
        decreases order@.len() - k,
    {
        out.push(order[k]);
        proof {
            assert(out@ =~= order@.subrange(0, k + 1));
        }
        k = k + 1;
    }
    proof {
        assert(order@.subrange(0, k as int) =~= order@);
    }
    if superkey(fields, order) {
        return out;
    }
    let mut j: usize = 0;
    while j < fields.len()
        invariant
            0 <= j <= fields@.len(),
            out@ == order@ + primary_tail(fields@, order@, j as int),
        decreases fields@.len() - j,
    {
        if fields[j].primary && !order_has_exec(order, j) {
            out.push((j, SortOrder::Asc));
            proof {
                assert(out@ =~= order@ + primary_tail(fields@, order@, j + 1));
            }
        }
        j = j + 1;
    }
    out
}

pub open spec fn selected_entries(out: Seq<(Seq<char>, ValueV)>, keys: Seq<Seq<char>>, n: int) -> Seq<(Seq<char>, ValueV)>
    decreases n,
{
    if n <= 0 {
        Seq::empty()
    } else {
        let prev = selected_entries(out, keys, n - 1);
        if keys.contains(out[n - 1].0) {
            prev.push(out[n - 1])
        } else {
            prev
        }
    }
}

/// Keeps the entries of an output whose key is selected, in their order.
pub fn select_fields(out: &Vec<(String, Value)>, select: &Vec<String>) -> (r: Vec<(String, Value)>)
    ensures
        crate::output::entry_views(r@) == selected_entries(
            crate::output::entry_views(out@),
            crate::schema::names_of(select@),
            out@.len() as int,
        ),
{
    let ghost ov = crate::output::entry_views(out@);
    let ghost keys = crate::schema::names_of(select@);
    let mut r: Vec<(String, Value)> = Vec::new();
    proof {
        assert(crate::output::entry_views(r@) =~= Seq::<(Seq<char>, ValueV)>::empty());
    }
    let mut i: usize = 0;
    while i < out.len()
        invariant
            0 <= i <= out@.len(),
            ov == crate::output::entry_views(out@),
            keys == crate::schema::names_of(select@),
            crate::output::entry_views(r@) == selected_entries(ov, keys, i as int),
        decreases out@.len() - i,
    {
        let mut found = false;
        let mut k: usize = 0;
        while k < select.len()
            invariant
                0 <= k <= select@.len(),
                i < out@.len(),
                keys == crate::schema::names_of(select@),
                found == exists|a: int| 0 <= a < k && (#[trigger] keys[a]) == out@[i as int].0@,
            decreases select@.len() - k,
        {
            proof {
                assert(keys[k as int] == select@[k as int]@);
            }
            if select[k] == out[i].0 {
                found = true;
            }
            k = k + 1;
        }
        proof {
            assert(ov[i as int] == (out@[i as int].0@, out@[i as int].1@));
            if found {
                let a = choose|a: int| 0 <= a < keys.len() && (#[trigger] keys[a]) == out@[i as int].0@;
                assert(keys.contains(ov[i as int].0));
            }
            if keys.contains(ov[i as int].0) {
                let a = choose|a: int| 0 <= a < keys.len() && keys[a] == ov[i as int].0;
                assert(keys[a] == out@[i as int].0@);
            }
        }
        if found {
            let ghost before = crate::output::entry_views(r@);
            let c = out[i].1.deep_clone();
            r.push((out[i].0.clone(), c));
            proof {
                assert(crate::output::entry_views(r@) =~= before.push(ov[i as int]));
            }
        }
        i = i + 1;
    }
    r
}

} // verus!
