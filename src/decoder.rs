use vstd::prelude::*;
use crate::coerce::{coerce, coerce_value, required_message};
use crate::error::{msg_invalid, msg_keys_unallowed, msg_required, ActionError, ErrorKind};
use crate::field::{run_pipeline, Argument, Field, WriteRule};
use crate::schema::{Enum, Model};
use crate::text::str_eq;
use crate::value::{Value, ValueV};

verus! {

/// Whether an input creates a new object or updates a stored one.
#[derive(PartialEq, Eq, Structural, Clone, Copy, Debug)]
pub enum InputMode {
    Create,
    Update,
}

/// The value under `key` in a payload: the first entry from `start` on.
pub open spec fn lookup(payload: Seq<(String, Value)>, key: Seq<char>, start: int) -> Option<ValueV>
    decreases payload.len() - start,
{
    if start < 0 || start >= payload.len() {
        None
    } else if payload[start].0@ == key {
        Some(payload[start].1@)
    } else {
        lookup(payload, key, start + 1)
    }
}

/// A key may stand in an input when it names a writable field; on update,
/// not one that may be written on creation only.
pub open spec fn key_allowed(fields: Seq<Field>, key: Seq<char>, mode: InputMode) -> bool {
    exists|i: int|
        0 <= i < fields.len() && (#[trigger] fields[i]).name@ == key && fields[i].is_input_key() && !(
        mode == InputMode::Update && fields[i].write_rule == WriteRule::WriteOnCreate)
}

pub open spec fn keys_allowed(fields: Seq<Field>, payload: Seq<(String, Value)>, mode: InputMode) -> bool {
    forall|e: int| 0 <= e < payload.len() ==> key_allowed(fields, (#[trigger] payload[e]).0@, mode)
}

/// A value after the field's `on_set` pipeline; null is left alone.
pub open spec fn after_set(f: Field, w: ValueV) -> Result<ValueV, Seq<char>> {
    if w is Null {
        Ok(w)
    } else {
        match run_pipeline(f.on_set_pipeline.items@, w) {
            Some(x) => Ok(x),
            None => Err(msg_invalid()),
        }
    }
}

/// The default of a field, if it declares one.
pub open spec fn default_of(f: Field) -> Option<Result<ValueV, Seq<char>>> {
    match f.default {
        Some(Argument::ValueArgument(d)) => Some(Ok(d@)),
        Some(Argument::PipelineArgument(p)) => Some(
            match run_pipeline(p.items@, ValueV::Null) {
                Some(x) => Ok(x),
                None => Err(msg_invalid()),
            },
        ),
        None => None,
    }
}

/// What one field receives from an input: `Ok(None)` leaves it untouched.
/// A given value is coerced and passed through `on_set`; an explicit null
/// is refused by a write-non-null field. On creation a missing value takes
/// the default, may be left out when the field is optional or assigned by
/// the database, and is otherwise required.
pub open spec fn field_input(f: Field, given: Option<ValueV>, mode: InputMode, enums: Seq<Enum>) -> Result<Option<ValueV>, Seq<char>> {
    match given {
        Some(v) => if v is Null && f.write_rule == WriteRule::WriteNonNull {
            Err(msg_required())
        } else {
            match coerce(f.field_type, f.is_optional(), v, enums) {
                Ok(w) => match after_set(f, w) {
                    Ok(x) => Ok(Some(x)),
                    Err(e) => Err(e),
                },
                Err(e) => Err(e),
            }
        },
        None => if mode == InputMode::Update {
            Ok(None)
        } else {
            match default_of(f) {
                Some(Ok(d)) => Ok(Some(d)),
                Some(Err(e)) => Err(e),
                None => if f.is_optional() || f.assigned_by_database {
                    Ok(None)
                } else {
                    Err(msg_required())
                },
            }
        },
    }
}

/// The outcome for each field of a model, in declaration order.
pub open spec fn field_results(
    fields: Seq<Field>,
    payload: Seq<(String, Value)>,
    mode: InputMode,
    enums: Seq<Enum>,
) -> Seq<Result<Option<ValueV>, Seq<char>>> {
    Seq::new(
        fields.len(),
        |i: int| field_input(fields[i], lookup(payload, fields[i].name@, 0), mode, enums),
    )
}

/// The field errors among the first `n` outcomes, as (field name, message).
pub open spec fn error_entries(
    fields: Seq<Field>,
    results: Seq<Result<Option<ValueV>, Seq<char>>>,
    n: int,
) -> Seq<(Seq<char>, Seq<char>)>
    decreases n,
{
    if n <= 0 {
        Seq::empty()
    } else {
        let prev = error_entries(fields, results, n - 1);
        match results[n - 1] {
            Err(e) => prev.push((fields[n - 1].name@, e)),
            Ok(_) => prev,
        }
    }
}

pub open spec fn pair_views(v: Seq<(String, String)>) -> Seq<(Seq<char>, Seq<char>)> {
    v.map_values(|p: (String, String)| (p.0@, p.1@))
}

pub open spec fn opt_views(v: Seq<Option<Value>>) -> Seq<Option<ValueV>> {
    v.map_values(
        |o: Option<Value>|
            match o {
                Some(x) => Some(x@),
                None => None,
            },
    )
}

/// The values an input assigns, one slot per field of the model.
pub struct InputPlan {
    pub values: Vec<Option<Value>>,
}

/// What decoding a payload against a model yields, in the model: the
/// per-field values, or the error.
pub open spec fn decode_spec(
    fields: Seq<Field>,
    payload: Seq<(String, Value)>,
    mode: InputMode,
    enums: Seq<Enum>,
) -> Result<Seq<Option<ValueV>>, (ErrorKind, Seq<(Seq<char>, Seq<char>)>)> {
    if !keys_allowed(fields, payload, mode) {
        Err((ErrorKind::KeysUnallowed, Seq::empty()))
    } else {
        let results = field_results(fields, payload, mode, enums);
        let errs = error_entries(fields, results, fields.len() as int);
        if errs.len() > 0 {
            Err((ErrorKind::ValidationError, errs))
        } else {
            Ok(Seq::new(fields.len(), |i: int| results[i]->Ok_0))
        }
    }
}

fn lookup_exec<'a>(payload: &'a Vec<(String, Value)>, key: &str) -> (r: Option<&'a Value>)
    ensures
        match lookup(payload@, key@, 0) {
            Some(v) => r is Some && r->0@ == v,
            None => r is None,
        },
{
    let mut e: usize = 0;
    while e < payload.len()
        invariant
            0 <= e <= payload.len(),
            lookup(payload@, key@, 0) == lookup(payload@, key@, e as int),
        decreases payload.len() - e,
    {
        if str_eq(payload[e].0.as_str(), key) {
            return Some(&payload[e].1);
        }
        e = e + 1;
    }
    None
}

fn key_allowed_exec(fields: &Vec<Field>, key: &str, mode: InputMode) -> (r: bool)
    ensures
        r == key_allowed(fields@, key@, mode),
{
    let mut i: usize = 0;
    while i < fields.len()
        invariant
            0 <= i <= fields.len(),
            forall|j: int|
                0 <= j < i ==> !((#[trigger] fields@[j]).name@ == key@ && fields@[j].is_input_key()
                    && !(mode == InputMode::Update && fields@[j].write_rule == WriteRule::WriteOnCreate)),
        decreases fields.len() - i,
    {
        let f = &fields[i];
        if str_eq(f.name.as_str(), key) && f.write_rule != WriteRule::NoWrite && !(mode
            == InputMode::Update && f.write_rule == WriteRule::WriteOnCreate) {
            return true;
        }
        i = i + 1;
    }
    false
}

fn invalid_message() -> (r: String)
    ensures
        r@ == msg_invalid(),
{
    String::from_str("Value is invalid.")
}

fn after_set_exec(f: &Field, w: Value) -> (r: Result<Value, String>)
    ensures
        match after_set(*f, w@) {
            Ok(x) => r is Ok && r->Ok_0@ == x,
            Err(e) => r is Err && r->Err_0@ == e,
        },
{
    match w {
        Value::Null => Ok(w),
        _ => match f.on_set_pipeline.process(&w) {
            Some(x) => Ok(x),
            None => Err(invalid_message()),
        },
    }
}

/// One field's share of an input; see [`field_input`].
pub fn field_input_exec(f: &Field, given: Option<&Value>, mode: InputMode, enums: &Vec<Enum>) -> (r: Result<Option<Value>, String>)
    ensures
        match field_input(
            *f,
            match given {
                Some(v) => Some(v@),
                None => None,
            },
            mode,
            enums@,
        ) {
            Ok(Some(x)) => r matches Ok(Some(y)) && y@ == x,
            Ok(None) => r matches Ok(None),
            Err(e) => r is Err && r->Err_0@ == e,
        },
{
    match given {
        Some(v) => {
            let is_null = match v {
                Value::Null => true,
                _ => false,
            };
            if is_null && f.write_rule == WriteRule::WriteNonNull {
                return Err(required_message());
            }
            match coerce_value(&f.field_type, f.optional(), v, enums) {
                Ok(w) => match after_set_exec(f, w) {
                    Ok(x) => Ok(Some(x)),
                    Err(e) => Err(e),
                },
                Err(e) => Err(e),
            }
        },
        None => {
            if mode == InputMode::Update {
                return Ok(None);
            }
            match &f.default {
                Some(Argument::ValueArgument(d)) => Ok(Some(d.deep_clone())),
                Some(Argument::PipelineArgument(p)) => match p.process(&Value::Null) {
                    Some(x) => Ok(Some(x)),
                    None => Err(invalid_message()),
                },
                None => {
                    if f.optional() || f.assigned_by_database {
                        Ok(None)
                    } else {
                        Err(required_message())
                    }
                },
            }
        },
    }
}

fn keys_unallowed_error() -> (r: ActionError)
    ensures
        r.kind == ErrorKind::KeysUnallowed,
        r.message@ == msg_keys_unallowed(),
        r.errors@.len() == 0,
{
    ActionError::simple(ErrorKind::KeysUnallowed, "Unallowed keys detected.")
}

/// Decodes a payload against a model. Every key must name a writable field
/// (`KeysUnallowed` otherwise); every field error is collected, in field
/// order, into one `ValidationError` whose message is the first field's.
pub fn decode(model: &Model, enums: &Vec<Enum>, payload: &Vec<(String, Value)>, mode: InputMode) -> (r: Result<InputPlan, ActionError>)
    ensures
        match decode_spec(model.fields@, payload@, mode, enums@) {
            Ok(vals) => r is Ok && opt_views(r->Ok_0.values@) == vals,
            Err((kind, errs)) => r is Err && r->Err_0.kind == kind && pair_views(r->Err_0.errors@)
                == errs && (kind == ErrorKind::KeysUnallowed ==> r->Err_0.message@
                == msg_keys_unallowed()) && (errs.len() > 0 ==> r->Err_0.message@ == errs[0].1),
        },
{
    let fields = &model.fields;
    let mut e: usize = 0;
    while e < payload.len()
        invariant
            0 <= e <= payload.len(),
            *fields == model.fields,
            forall|a: int| 0 <= a < e ==> key_allowed(fields@, (#[trigger] payload@[a]).0@, mode),
        decreases payload.len() - e,
    {
        if !key_allowed_exec(fields, payload[e].0.as_str(), mode) {
            let err = keys_unallowed_error();
            proof {
                assert(!key_allowed(fields@, payload@[e as int].0@, mode));
                assert(pair_views(err.errors@) =~= Seq::empty());
            }
            return Err(err);
        }
        e = e + 1;
    }
    let ghost results = field_results(fields@, payload@, mode, enums@);
    let mut values: Vec<Option<Value>> = Vec::new();
    let mut errors: Vec<(String, String)> = Vec::new();
    let mut i: usize = 0;
    while i < fields.len()
        invariant
            0 <= i <= fields.len(),
            *fields == model.fields,
            results == field_results(fields@, payload@, mode, enums@),
            values@.len() == i,
            pair_views(errors@) == error_entries(fields@, results, i as int),
            forall|j: int|
                0 <= j < i && results[j] is Ok ==> (#[trigger] opt_views(values@)[j]) == results[j]->Ok_0,
        decreases fields.len() - i,
    {
        let f = &fields[i];
        let given = lookup_exec(payload, f.name.as_str());
        let res = field_input_exec(f, given, mode, enums);
        let ghost vb = values@;
        match res {
            Ok(v) => {
                values.push(v);
                proof {
                    assert forall|j: int|
                        0 <= j < i + 1 && results[j] is Ok implies (#[trigger] opt_views(values@)[j])
                        == results[j]->Ok_0 by {
                        if j < i {
                            assert(opt_views(values@)[j] == opt_views(vb)[j]);
                        }
                    }
                }
            },
            Err(msg) => {
                let ghost eb = errors@;
                values.push(None);
                errors.push((f.name.clone(), msg));
                proof {
                    assert(pair_views(errors@) =~= pair_views(eb).push((fields@[i as int].name@, msg@)));
                    assert forall|j: int|
                        0 <= j < i + 1 && results[j] is Ok implies (#[trigger] opt_views(values@)[j])
                        == results[j]->Ok_0 by {
                        if j < i {
                            assert(opt_views(values@)[j] == opt_views(vb)[j]);
                        }
                    }
                }
            },
        }
        i = i + 1;
    }
    if errors.len() > 0 {
        let message = errors[0].1.clone();
        proof {
            assert(pair_views(errors@)[0] == (errors@[0].0@, errors@[0].1@));
        }
        return Err(ActionError { kind: ErrorKind::ValidationError, message, errors });
    }
    proof {
        lemma_no_errors_all_ok(fields@, results, fields@.len() as int);
        assert(opt_views(values@) =~= Seq::new(fields@.len(), |j: int| results[j]->Ok_0));
    }
    Ok(InputPlan { values })
}

proof fn lemma_no_errors_all_ok(
    fields: Seq<Field>,
    results: Seq<Result<Option<ValueV>, Seq<char>>>,
    n: int,
)
    requires
        0 <= n <= results.len(),
        error_entries(fields, results, n).len() == 0,
    ensures
        forall|j: int| 0 <= j < n ==> (#[trigger] results[j]) is Ok,
    decreases n,
{
    if n > 0 {
        let prev = error_entries(fields, results, n - 1);
        if results[n - 1] is Err {
            assert(error_entries(fields, results, n).len() == prev.len() + 1);
        }
        lemma_no_errors_all_ok(fields, results, n - 1);
    }
}

/// The payload that carries the values of a plan: one entry per filled
/// slot among the first `n`, in field order.
pub open spec fn encode_spec(fields: Seq<Field>, vals: Seq<Option<ValueV>>, n: int) -> Seq<(Seq<char>, ValueV)>
    decreases n,
{
    if n <= 0 {
        Seq::empty()
    } else {
        let prev = encode_spec(fields, vals, n - 1);
        match vals[n - 1] {
            Some(v) => prev.push((fields[n - 1].name@, v)),
            None => prev,
        }
    }
}

pub open spec fn payload_views(p: Seq<(String, Value)>) -> Seq<(Seq<char>, ValueV)> {
    p.map_values(|e: (String, Value)| (e.0@, e.1@))
}

/// `lookup` over the models of the entries.
pub open spec fn lookup_v(p: Seq<(Seq<char>, ValueV)>, key: Seq<char>, start: int) -> Option<ValueV>
    decreases p.len() - start,
{
    if start < 0 || start >= p.len() {
        None
    } else if p[start].0 == key {
        Some(p[start].1)
    } else {
        lookup_v(p, key, start + 1)
    }
}

proof fn lemma_lookup_views(p: Seq<(String, Value)>, key: Seq<char>, start: int)
    requires
        0 <= start <= p.len(),
    ensures
        lookup(p, key, start) == lookup_v(payload_views(p), key, start),
    decreases p.len() - start,
{
    if start < p.len() {
        lemma_lookup_views(p, key, start + 1);
    }
}

proof fn lemma_lookup_v_push(p: Seq<(Seq<char>, ValueV)>, e: (Seq<char>, ValueV), key: Seq<char>, start: int)
    requires
        0 <= start <= p.len(),
    ensures
        lookup_v(p.push(e), key, start) == match lookup_v(p, key, start) {
            Some(v) => Some(v),
            None => if e.0 == key {
                Some(e.1)
            } else {
                None
            },
        },
    decreases p.len() - start,
{
    if start < p.len() {
        assert(p.push(e)[start] == p[start]);
        lemma_lookup_v_push(p, e, key, start + 1);
    } else {
        assert(p.push(e)[start] == e);
        assert(lookup_v(p.push(e), key, start + 1) == None::<ValueV>);
        assert(lookup_v(p, key, start) == None::<ValueV>);
    }
}

pub open spec fn names_distinct(fields: Seq<Field>) -> bool {
    forall|i: int, j: int|
        #![trigger fields[i], fields[j]]
        0 <= i < j < fields.len() ==> fields[i].name@ != fields[j].name@
}

/// The encoded first `n` slots: the entry for each filled field is found
/// under its name, and no entry is found for an empty one.
proof fn lemma_encode_lookup(fields: Seq<Field>, vals: Seq<Option<ValueV>>, n: int)
    requires
        0 <= n <= fields.len(),
        vals.len() == fields.len(),
        names_distinct(fields),
    ensures
        forall|i: int| 0 <= i < fields.len() ==> #[trigger] lookup_v(encode_spec(fields, vals, n), fields[i].name@, 0) == (if i < n {
            vals[i]
        } else {
            None
        }),
        forall|e: int| 0 <= e < encode_spec(fields, vals, n).len() ==> exists|i: int| 0 <= i < n && vals[i] is Some && fields[i].name@ == (#[trigger] encode_spec(fields, vals, n)[e]).0,
    decreases n,
{
    if n > 0 {
        lemma_encode_lookup(fields, vals, n - 1);
        let prev = encode_spec(fields, vals, n - 1);
        match vals[n - 1] {
            Some(v) => {
                let e = (fields[n - 1].name@, v);
                assert forall|i: int| 0 <= i < fields.len() implies #[trigger] lookup_v(encode_spec(fields, vals, n), fields[i].name@, 0) == (if i < n {
                    vals[i]
                } else {
                    None
                }) by {
                    lemma_lookup_v_push(prev, e, fields[i].name@, 0);
                    if i != n - 1 {
                        if i < n - 1 {
                            assert(fields[i].name@ != fields[n - 1].name@);
                        } else {
                            assert(fields[n - 1].name@ != fields[i].name@);
                        }
                    }
                }
                assert forall|k: int| 0 <= k < encode_spec(fields, vals, n).len() implies exists|i: int| 0 <= i < n && vals[i] is Some && fields[i].name@ == (#[trigger] encode_spec(fields, vals, n)[k]).0 by {
                    if k < prev.len() {
                        assert(encode_spec(fields, vals, n)[k] == prev[k]);
                    } else {
                        assert(encode_spec(fields, vals, n)[k] == e);
                    }
                }
            },
            None => {},
        }
    }
}

/// The payload for a plan, one entry per filled slot, in field order.
pub fn encode(fields: &Vec<Field>, plan: &InputPlan) -> (r: Vec<(String, Value)>)
    requires
        plan.values@.len() == fields@.len(),
    ensures
        payload_views(r@) == encode_spec(fields@, opt_views(plan.values@), fields@.len() as int),
{
    let ghost vals = opt_views(plan.values@);
    let mut out: Vec<(String, Value)> = Vec::new();
    proof {
        assert(payload_views(out@) =~= Seq::<(Seq<char>, ValueV)>::empty());
    }
    let mut i: usize = 0;
    while i < fields.len()
        invariant
            0 <= i <= fields.len(),
            plan.values@.len() == fields@.len(),
            vals == opt_views(plan.values@),
            payload_views(out@) == encode_spec(fields@, vals, i as int),
        decreases fields.len() - i,
    {
        let ghost before = payload_views(out@);
        match &plan.values[i] {
            Some(v) => {
                let c = v.deep_clone();
                let ghost cv = c@;
                out.push((fields[i].name.clone(), c));
                proof {
                    assert(payload_views(out@) =~= before.push((fields@[i as int].name@, cv)));
                }
            },
            None => {},
        }
        i = i + 1;
    }
    out
}

/// Decoding the encoding of a plan gives the plan back, in either mode,
/// for plans whose values a decoder could have produced: every filled slot
/// belongs to a field that the mode lets an input write, and every slot,
/// filled or not, comes out of `field_input` unchanged (on creation an
/// empty slot must be one that needs no default and no value). Field names
/// must be distinct.
pub proof fn lemma_decode_encode(
    fields: Seq<Field>,
    payload: Seq<(String, Value)>,
    vals: Seq<Option<ValueV>>,
    mode: InputMode,
    enums: Seq<Enum>,
)
    requires
        vals.len() == fields.len(),
        names_distinct(fields),
        payload_views(payload) == encode_spec(fields, vals, fields.len() as int),
        forall|i: int|
            0 <= i < fields.len() && (#[trigger] vals[i]) is Some ==> fields[i].is_input_key() && !(mode
                == InputMode::Update && fields[i].write_rule == WriteRule::WriteOnCreate),
        forall|i: int|
            0 <= i < fields.len() ==> field_input(#[trigger] fields[i], vals[i], mode, enums) == Ok::<
                Option<ValueV>,
                Seq<char>,
            >(vals[i]),
    ensures
        decode_spec(fields, payload, mode, enums) == Ok::<Seq<Option<ValueV>>, (ErrorKind, Seq<(Seq<char>, Seq<char>)>)>(vals),
{
    let n = fields.len() as int;
    lemma_encode_lookup(fields, vals, n);
    assert forall|e: int| 0 <= e < payload.len() implies key_allowed(fields, (#[trigger] payload[e]).0@, mode) by {
        assert(payload_views(payload)[e] == (payload[e].0@, payload[e].1@));
        let i = choose|i: int| 0 <= i < n && vals[i] is Some && fields[i].name@ == (#[trigger] encode_spec(fields, vals, n)[e]).0;
        assert(fields[i].name@ == payload[e].0@);
    }
    let results = field_results(fields, payload, mode, enums);
    assert forall|i: int| 0 <= i < n implies #[trigger] results[i] == Ok::<Option<ValueV>, Seq<char>>(vals[i]) by {
        lemma_lookup_views(payload, fields[i].name@, 0);
        assert(lookup(payload, fields[i].name@, 0) == vals[i]);
    }
    lemma_no_errors(fields, results, n);
    assert(Seq::new(fields.len(), |i: int| results[i]->Ok_0) =~= vals);
}

proof fn lemma_no_errors(fields: Seq<Field>, results: Seq<Result<Option<ValueV>, Seq<char>>>, n: int)
    requires
        0 <= n <= results.len(),
        forall|i: int| 0 <= i < n ==> (#[trigger] results[i]) is Ok,
    ensures
        error_entries(fields, results, n).len() == 0,
    decreases n,
{
    if n > 0 {
        lemma_no_errors(fields, results, n - 1);
    }
}

} // verus!
