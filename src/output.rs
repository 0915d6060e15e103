use vstd::prelude::*;
use crate::coerce::views;
use crate::error::{msg_invalid, ActionError, ErrorKind};
use crate::field::{run_pipeline, Field, FieldType, ReadRule, Transformer};
use crate::value::{Value, ValueV};

verus! {

/// A value after the `on_save` pipelines: for a list field the item
/// pipeline runs on every item first, then the field's own pipeline runs.
pub open spec fn save_value(f: Field, v: ValueV) -> Option<ValueV> {
    match f.field_type {
        FieldType::Vec(inner) => match v {
            ValueV::List(items) => match save_items(inner.on_save_pipeline.items@, items) {
                Some(ws) => run_pipeline(f.on_save_pipeline.items@, ValueV::List(ws)),
                None => None,
            },
            _ => run_pipeline(f.on_save_pipeline.items@, v),
        },
        _ => run_pipeline(f.on_save_pipeline.items@, v),
    }
}

/// A pipeline run on every item of a list; `None` when it rejects one.
pub open spec fn save_items(p: Seq<Transformer>, items: Seq<ValueV>) -> Option<Seq<ValueV>>
    decreases items.len(),
{
    if items.len() == 0 {
        Some(Seq::empty())
    } else {
        match save_items(p, items.drop_last()) {
            Some(prev) => match run_pipeline(p, items.last()) {
                Some(w) => Some(prev.push(w)),
                None => None,
            },
            None => None,
        }
    }
}

proof fn lemma_save_items_none(p: Seq<Transformer>, items: Seq<ValueV>, k: int)
    requires
        0 < k <= items.len(),
        save_items(p, items.subrange(0, k)) is None,
    ensures
        save_items(p, items) is None,
    decreases items.len() - k,
{
    if k < items.len() {
        assert(items.subrange(0, k + 1).drop_last() =~= items.subrange(0, k));
        lemma_save_items_none(p, items, k + 1);
    } else {
        assert(items.subrange(0, k) =~= items);
    }
}

/// The row as saved: every non-null value of a field marked in `mask`
/// through the field's `on_save`, the others as they are; `Err(i)` names
/// the first field whose pipeline rejects.
pub open spec fn saved_row(fields: Seq<Field>, row: Seq<ValueV>, mask: Seq<bool>, n: int) -> Result<Seq<ValueV>, int>
    decreases n,
{
    if n <= 0 {
        Ok(Seq::empty())
    } else {
        match saved_row(fields, row, mask, n - 1) {
            Err(i) => Err(i),
            Ok(prev) => if row[n - 1] is Null || !mask[n - 1] {
                Ok(prev.push(row[n - 1]))
            } else {
                match save_value(fields[n - 1], row[n - 1]) {
                    Some(w) => Ok(prev.push(w)),
                    None => Err(n - 1),
                }
            },
        }
    }
}

/// What a row shows: the readable fields with a value, each through its
/// `on_output` pipeline, in field order; `Err(i)` names the first field
/// whose pipeline rejects.
pub open spec fn output_row(fields: Seq<Field>, row: Seq<ValueV>, n: int) -> Result<Seq<(Seq<char>, ValueV)>, int>
    decreases n,
{
    if n <= 0 {
        Ok(Seq::empty())
    } else {
        match output_row(fields, row, n - 1) {
            Err(i) => Err(i),
            Ok(prev) => if fields[n - 1].read_rule == ReadRule::NoRead || row[n - 1] is Null {
                Ok(prev)
            } else {
                match run_pipeline(fields[n - 1].on_output_pipeline.items@, row[n - 1]) {
                    Some(w) => Ok(prev.push((fields[n - 1].name@, w))),
                    None => Err(n - 1),
                }
            },
        }
    }
}

pub open spec fn entry_views(v: Seq<(String, Value)>) -> Seq<(Seq<char>, ValueV)> {
    v.map_values(|p: (String, Value)| (p.0@, p.1@))
}

pub fn save_value_exec(f: &Field, v: &Value) -> (r: Option<Value>)
    ensures
        match save_value(*f, v@) {
            Some(w) => r is Some && r->0@ == w,
            None => r is None,
        },
{
    match &f.field_type {
        FieldType::Vec(inner) => match v {
            Value::List(items) => {
                let ghost iv = views(items@);
                proof {
                    assert(v@->List_0 =~= iv);
                }
                let mut out: Vec<Value> = Vec::new();
                proof {
                    assert(iv.subrange(0, 0) =~= Seq::<ValueV>::empty());
                    assert(views(out@) =~= Seq::<ValueV>::empty());
                }
                let mut i: usize = 0;
                while i < items.len()
                    invariant
                        0 <= i <= items.len(),
                        iv == views(items@),
                        v@ == ValueV::List(iv),
                        f.field_type == FieldType::Vec(*inner),
                        save_items(inner.on_save_pipeline.items@, iv.subrange(0, i as int)) == Some(views(out@)),
                    decreases items.len() - i,
                {
                    proof {
                        assert(iv.subrange(0, i + 1).drop_last() =~= iv.subrange(0, i as int));
                    }
                    let ghost before = views(out@);
                    match inner.on_save_pipeline.process(&items[i]) {
                        Some(w) => {
                            let ghost wv = w@;
                            out.push(w);
                            proof {
                                assert(views(out@) =~= before.push(wv));
                            }
                        },
                        None => {
                            proof {
                                lemma_save_items_none(inner.on_save_pipeline.items@, iv, i as int + 1);
                            }
                            return None;
                        },
                    }
                    i = i + 1;
                }
                let lv = Value::List(out);
                proof {
                    assert(iv.subrange(0, i as int) =~= iv);
                    assert(lv@->List_0 =~= views(out@));
                }
                f.on_save_pipeline.process(&lv)
            },
            _ => f.on_save_pipeline.process(v),
        },
        _ => f.on_save_pipeline.process(v),
    }
}

pub fn invalid_field_error(field: &String) -> (r: ActionError)
    ensures
        r.kind == ErrorKind::ValidationError,
        r.message@ == msg_invalid(),
        r.errors@.len() == 1,
        r.errors@[0].0@ == field@,
        r.errors@[0].1@ == msg_invalid(),
{
    let mut errors: Vec<(String, String)> = Vec::new();
    errors.push((field.clone(), String::from_str("Value is invalid.")));
    ActionError {
        kind: ErrorKind::ValidationError,
        message: String::from_str("Value is invalid."),
        errors,
    }
}

/// Runs the `on_save` pipelines over a row; see [`saved_row`].
pub fn save_row(fields: &Vec<Field>, row: &Vec<Value>, mask: &Vec<bool>) -> (r: Result<Vec<Value>, usize>)
    requires
        row@.len() == fields@.len(),
        mask@.len() == fields@.len(),
    ensures
        match saved_row(fields@, views(row@), mask@, fields@.len() as int) {
            Ok(s) => r is Ok && views(r->Ok_0@) == s,
            Err(i) => r is Err && r->Err_0 == i,
        },
        r matches Ok(s) ==> s@.len() == fields@.len(),
        r matches Err(i) ==> i < fields@.len(),
{
    let ghost rv = views(row@);
    let mut out: Vec<Value> = Vec::new();
    proof {
        assert(views(out@) =~= Seq::<ValueV>::empty());
    }
    let mut i: usize = 0;
    while i < fields.len()
        invariant
            0 <= i <= fields.len(),
            row@.len() == fields@.len(),
            mask@.len() == fields@.len(),
            rv == views(row@),
            saved_row(fields@, rv, mask@, i as int) == Ok::<Seq<ValueV>, int>(views(out@)),
            out@.len() == i,
        decreases fields.len() - i,
    {
        let ghost before = views(out@);
        let is_null = match &row[i] {
            Value::Null => true,
            _ => false,
        };
        if is_null || !mask[i] {
            let c = row[i].deep_clone();
            out.push(c);
            proof {
                assert(views(out@) =~= before.push(rv[i as int]));
            }
        } else {
            match save_value_exec(&fields[i], &row[i]) {
                Some(w) => {
                    let ghost wv = w@;
                    out.push(w);
                    proof {
                        assert(views(out@) =~= before.push(wv));
                    }
                },
                None => {
                    proof {
                        lemma_saved_row_err(fields@, rv, mask@, i as int + 1, fields@.len() as int);
                    }
                    return Err(i);
                },
            }
        }
        i = i + 1;
    }
    Ok(out)
}

proof fn lemma_saved_row_err(fields: Seq<Field>, row: Seq<ValueV>, mask: Seq<bool>, k: int, n: int)
    requires
        0 < k <= n,
        saved_row(fields, row, mask, k) == Err::<Seq<ValueV>, int>(k - 1),
    ensures
        saved_row(fields, row, mask, n) == Err::<Seq<ValueV>, int>(k - 1),
    decreases n - k,
{
    if k < n {
        lemma_saved_row_err(fields, row, mask, k, n - 1);
    }
}

proof fn lemma_output_row_err(fields: Seq<Field>, row: Seq<ValueV>, k: int, n: int)
    requires
        0 < k <= n,
        output_row(fields, row, k) == Err::<Seq<(Seq<char>, ValueV)>, int>(k - 1),
    ensures
        output_row(fields, row, n) == Err::<Seq<(Seq<char>, ValueV)>, int>(k - 1),
    decreases n - k,
{
    if k < n {
        lemma_output_row_err(fields, row, k, n - 1);
    }
}

/// Shapes a row for a response; see [`output_row`].
pub fn output_of(fields: &Vec<Field>, row: &Vec<Value>) -> (r: Result<Vec<(String, Value)>, usize>)
    requires
        row@.len() == fields@.len(),
    ensures
        match output_row(fields@, views(row@), fields@.len() as int) {
            Ok(s) => r is Ok && entry_views(r->Ok_0@) == s,
            Err(i) => r is Err && r->Err_0 == i,
        },
{
    let ghost rv = views(row@);
    let mut out: Vec<(String, Value)> = Vec::new();
    proof {
        assert(entry_views(out@) =~= Seq::<(Seq<char>, ValueV)>::empty());
    }
    let mut i: usize = 0;
    while i < fields.len()
        invariant
            0 <= i <= fields.len(),
            row@.len() == fields@.len(),
            rv == views(row@),
            output_row(fields@, rv, i as int) == Ok::<Seq<(Seq<char>, ValueV)>, int>(entry_views(out@)),
        decreases fields.len() - i,
    {
        let ghost before = entry_views(out@);
        let is_null = match &row[i] {
            Value::Null => true,
            _ => false,
        };
        if !(fields[i].read_rule == ReadRule::NoRead || is_null) {
            match fields[i].on_output_pipeline.process(&row[i]) {
                Some(w) => {
                    let ghost wv = w@;
                    out.push((fields[i].name.clone(), w));
                    proof {
                        assert(entry_views(out@) =~= before.push((fields@[i as int].name@, wv)));
                    }
                },
                None => {
                    proof {
                        lemma_output_row_err(fields@, rv, i as int + 1, fields@.len() as int);
                    }
                    return Err(i);
                },
            }
        }
        i = i + 1;
    }
    Ok(out)
}

} // verus!
