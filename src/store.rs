use vstd::prelude::*;
use crate::coerce::views;
use crate::decoder::{decode, decode_spec, opt_views, pair_views, InputMode};
use crate::error::{
    msg_keys_unallowed, msg_input_invalid, msg_not_found, msg_not_unique_filter, msg_unique, ActionError, ErrorKind,
};
use crate::field::{Field, WriteRule};
use crate::ident::{assigned_value, assigned_value_exec};
use crate::filter::{holds, Where};
use crate::object::{all_null, applied, Object};
use crate::output::{entry_views, output_of, output_row, save_row, saved_row};
use crate::schema::Graph;
use crate::text::str_eq;
use crate::unique::{
    agree, compound_conflict, conflict, conflict_through, find_conflict, has_primary, is_unique_key_set, pos_set,
    primary_conflict, same_compound, single_conflict, table_unique, unique_key_set,
};
use crate::value::{value_eq, Value, ValueV};

verus! {

/// The models of the rows of a table.
pub open spec fn rows_view(rows: Seq<Vec<Value>>) -> Seq<Seq<ValueV>> {
    Seq::new(rows.len(), |i: int| views(rows[i]@))
}

/// The first field from `start` on called `name`.
pub open spec fn first_pos(fields: Seq<Field>, name: Seq<char>, start: int) -> Option<int>
    decreases fields.len() - start,
{
    if start < 0 || start >= fields.len() {
        None
    } else if fields[start].name@ == name {
        Some(start)
    } else {
        first_pos(fields, name, start + 1)
    }
}

/// The field positions a filter names, when every key names a field and no
/// field is named twice.
pub open spec fn filter_positions(fields: Seq<Field>, filter: Seq<(String, Value)>) -> Option<Seq<int>> {
    if (forall|e: int| 0 <= e < filter.len() ==> first_pos(fields, (#[trigger] filter[e]).0@, 0) is Some)
        && (forall|a: int, b: int|
        #![trigger filter[a], filter[b]]
        0 <= a < b < filter.len() ==> first_pos(fields, filter[a].0@, 0) != first_pos(fields, filter[b].0@, 0)) {
        Some(Seq::new(filter.len(), |e: int| first_pos(fields, filter[e].0@, 0)->0))
    } else {
        None
    }
}

pub open spec fn int_set(pos: Seq<int>) -> Set<int> {
    Set::new(|j: int| exists|e: int| 0 <= e < pos.len() && pos[e] == j)
}

/// A filter that names exactly the fields of one unique index.
pub open spec fn is_unique_filter(fields: Seq<Field>, filter: Seq<(String, Value)>) -> bool {
    filter.len() > 0 && match filter_positions(fields, filter) {
        Some(pos) => is_unique_key_set(fields, int_set(pos)),
        None => false,
    }
}

/// A row holds the filter's values in the named fields.
pub open spec fn row_matches(pos: Seq<int>, filter: Seq<(String, Value)>, row: Seq<ValueV>) -> bool {
    forall|e: int| 0 <= e < pos.len() ==> row[#[trigger] pos[e]] == filter[e].1@
}

/// The model of a new row: the decoded values over an all-null row, the
/// database-assigned fields that are still null set to the value of their
/// type that identifier `id` gives (see [`assigned_value`]), and the
/// `on_save` pipelines run.
pub open spec fn with_ids(fields: Seq<Field>, row: Seq<ValueV>, id: int) -> Seq<ValueV> {
    Seq::new(
        row.len(),
        |i: int|
            if fields[i].assigned_by_database && row[i] is Null {
                assigned_value(fields[i].field_type, id as nat)
            } else {
                row[i]
            },
    )
}

pub open spec fn all_marked(n: nat) -> Seq<bool> {
    Seq::new(n, |i: int| true)
}

/// Marks the positions where two rows differ.
pub open spec fn changed_mask(a: Seq<ValueV>, b: Seq<ValueV>) -> Seq<bool> {
    Seq::new(a.len(), |i: int| a[i] != b[i])
}

pub open spec fn null_row(n: nat) -> Seq<ValueV> {
    Seq::new(n, |i: int| ValueV::Null)
}

pub open spec fn created_row(fields: Seq<Field>, payload: Seq<(String, Value)>, enums: Seq<crate::schema::Enum>, id: int) -> Option<Seq<ValueV>> {
    match decode_spec(fields, payload, InputMode::Create, enums) {
        Ok(vals) => match saved_row(
            fields,
            with_ids(fields, applied(null_row(fields.len()), vals), id),
            all_marked(fields.len()),
            fields.len() as int,
        ) {
            Ok(row) => Some(row),
            Err(_) => None,
        },
        Err(_) => None,
    }
}

/// The model of an updated row: the decoded values over the stored row,
/// then the `on_save` pipelines.
pub open spec fn updated_row(fields: Seq<Field>, old_row: Seq<ValueV>, payload: Seq<(String, Value)>, enums: Seq<crate::schema::Enum>) -> Option<Seq<ValueV>> {
    match decode_spec(fields, payload, InputMode::Update, enums) {
        Ok(vals) => if !write_once_ok(fields, old_row, vals) {
            None
        } else {
            match saved_row(
            fields,
            applied(old_row, vals),
            changed_mask(old_row, applied(old_row, vals)),
            fields.len() as int,
        ) {
                Ok(row) => Some(row),
                Err(_) => None,
            }
        },
        Err(_) => None,
    }
}

/// A write-once field is only assigned while it is still null.
pub open spec fn write_once_ok(fields: Seq<Field>, old_row: Seq<ValueV>, vals: Seq<Option<ValueV>>) -> bool {
    forall|i: int|
        0 <= i < fields.len() && (#[trigger] fields[i]).write_rule == WriteRule::WriteOnce && vals[i] is Some
            ==> old_row[i] is Null
}

fn write_once_respected(fields: &Vec<Field>, row: &Vec<Value>, plan: &crate::decoder::InputPlan) -> (r: bool)
    requires
        row@.len() == fields@.len(),
        plan.values@.len() == fields@.len(),
    ensures
        r == write_once_ok(fields@, views(row@), opt_views(plan.values@)),
{
    let ghost vals = opt_views(plan.values@);
    let n = fields.len();
    let mut w: usize = 0;
    while w < n
        invariant
            0 <= w <= n,
            n == fields@.len(),
            row@.len() == n,
            plan.values@.len() == n,
            vals == opt_views(plan.values@),
            forall|i: int|
                0 <= i < w && (#[trigger] fields@[i]).write_rule == WriteRule::WriteOnce && vals[i] is Some
                    ==> views(row@)[i] is Null,
        decreases n - w,
    {
        if fields[w].write_rule == WriteRule::WriteOnce && plan.values[w].is_some() {
            let is_null = match &row[w] {
                Value::Null => true,
                _ => false,
            };
            proof {
                assert(views(row@)[w as int] == row@[w as int]@);
            }
            if !is_null {
                return false;
            }
        }
        w = w + 1;
    }
    true
}

/// Rows kept in memory, one table per model of a graph.
pub struct MemoryStore {
    pub tables: Vec<Vec<Vec<Value>>>,
    pub next_id: i128,
}

impl MemoryStore {
    pub open spec fn table(&self, m: int) -> Seq<Seq<ValueV>> {
        rows_view(self.tables@[m]@)
    }

    /// One table per model, one value per field in each row, and no two
    /// rows of a table collide on a unique index.
    pub open spec fn wf(&self, g: &Graph) -> bool {
        &&& self.tables@.len() == g.models@.len()
        &&& self.next_id >= 1
        &&& forall|m: int, r: int|
            #![trigger self.tables@[m]@[r]]
            0 <= m < self.tables@.len() && 0 <= r < self.tables@[m]@.len() ==> self.tables@[m]@[r]@.len()
                == g.models@[m].fields@.len()
        &&& forall|m: int|
            0 <= m < self.tables@.len() ==> table_unique(g.models@[m].fields@, #[trigger] self.table(m))
    }

    pub fn new(g: &Graph) -> (r: MemoryStore)
        ensures
            r.wf(g),
            r.next_id == 1,
            forall|m: int| 0 <= m < r.tables@.len() ==> (#[trigger] r.tables@[m])@.len() == 0,
    {
        let mut tables: Vec<Vec<Vec<Value>>> = Vec::new();
        let mut i: usize = 0;
        while i < g.models.len()
            invariant
                0 <= i <= g.models.len(),
                tables@.len() == i,
                forall|m: int| 0 <= m < i ==> (#[trigger] tables@[m])@.len() == 0,
            decreases g.models.len() - i,
        {
            tables.push(Vec::new());
            i = i + 1;
        }
        let r = MemoryStore { tables, next_id: 1 };
        proof {
            assert forall|m: int| 0 <= m < r.tables@.len() implies table_unique(
                g.models@[m].fields@,
                #[trigger] r.table(m),
            ) by {
                assert(r.table(m).len() == 0);
            }
        }
        r
    }

    /// Resolves a unique filter and finds the first row it matches.
    pub fn locate(&self, g: &Graph, m: usize, filter: &Vec<(String, Value)>) -> (r: Result<Option<usize>, ActionError>)
        requires
            self.wf(g),
            m < g.models@.len(),
        ensures
            !is_unique_filter(g.models@[m as int].fields@, filter@) ==> r is Err && r->Err_0.kind
                == ErrorKind::InvalidOperation && r->Err_0.message@ == msg_not_unique_filter(),
            is_unique_filter(g.models@[m as int].fields@, filter@) ==> r is Ok && {
                let pos = filter_positions(g.models@[m as int].fields@, filter@)->0;
                let rows = self.table(m as int);
                match r->Ok_0 {
                    Some(k) => k < rows.len() && row_matches(pos, filter@, rows[k as int]) && forall|j: int|
                        0 <= j < k ==> !row_matches(pos, filter@, #[trigger] rows[j]),
                    None => forall|j: int| 0 <= j < rows.len() ==> !row_matches(pos, filter@, #[trigger] rows[j]),
                }
            },
    {
        let fields = &g.models[m].fields;
        if filter.len() == 0 {
            return Err(not_unique_filter_error());
        }
        let mut pos: Vec<usize> = Vec::new();
        let mut e: usize = 0;
        while e < filter.len()
            invariant
                0 <= e <= filter.len(),
                *fields == g.models@[m as int].fields,
                pos@.len() == e,
                forall|a: int| 0 <= a < e ==> first_pos(fields@, (#[trigger] filter@[a]).0@, 0) == Some(pos@[a] as int),
                forall|a: int| 0 <= a < e ==> (#[trigger] pos@[a]) < fields@.len(),
                forall|a: int, b: int| #![trigger pos@[a], pos@[b]] 0 <= a < b < e ==> pos@[a] != pos@[b],
            decreases filter.len() - e,
        {
            let name = filter[e].0.as_str();
            proof {
                assert(name@ == filter@[e as int].0@);
            }
            let found = first_field(fields, name);
            let p = match found {
                Some(p) => p,
                None => {
                    proof {
                        assert(first_pos(fields@, filter@[e as int].0@, 0) is None);
                    }
                    return Err(not_unique_filter_error());
                },
            };
            proof {
                assert(found == Some(p));
                assert(first_pos(fields@, name@, 0) is Some);
                assert(first_pos(fields@, filter@[e as int].0@, 0) == Some(p as int));
            }
            let mut a: usize = 0;
            while a < e
                invariant
                    0 <= a <= e,
                    e == pos@.len(),
                    e < filter@.len(),
                    *fields == g.models@[m as int].fields,
                    first_pos(fields@, filter@[e as int].0@, 0) == Some(p as int),
                    forall|c: int| 0 <= c < e ==> first_pos(fields@, (#[trigger] filter@[c]).0@, 0) == Some(pos@[c] as int),
                    forall|c: int| 0 <= c < a ==> (#[trigger] pos@[c]) != p,
                decreases e - a,
            {
                if pos[a] == p {
                    proof {
                        assert(first_pos(fields@, filter@[a as int].0@, 0) == first_pos(fields@, filter@[e as int].0@, 0));
                    }
                    return Err(not_unique_filter_error());
                }
                a = a + 1;
            }
            pos.push(p);
            e = e + 1;
        }
        let ghost ipos = Seq::new(filter@.len(), |e: int| first_pos(fields@, filter@[e].0@, 0)->0);
        proof {
            assert(filter_positions(fields@, filter@) == Some(ipos));
            assert(int_set(ipos) =~= pos_set(pos@)) by {
                assert forall|j: int| int_set(ipos).contains(j) implies pos_set(pos@).contains(j) by {
                    let e = choose|e: int| 0 <= e < ipos.len() && ipos[e] == j;
                    assert(pos@[e] == j);
                }
                assert forall|j: int| pos_set(pos@).contains(j) implies int_set(ipos).contains(j) by {
                    let e = choose|e: int| 0 <= e < pos@.len() && pos@[e] == j;
                    assert(ipos[e] == j);
                }
            }
        }
        if !unique_key_set(fields, &pos) {
            return Err(not_unique_filter_error());
        }
        proof {
            assert(is_unique_filter(fields@, filter@));
        }
        let rows = &self.tables[m];
        let mut k: usize = 0;
        while k < rows.len()
            invariant
                0 <= k <= rows.len(),
                *rows == self.tables@[m as int],
                *fields == g.models@[m as int].fields,
                self.wf(g),
                m < g.models@.len(),
                is_unique_filter(g.models@[m as int].fields@, filter@),
                filter_positions(g.models@[m as int].fields@, filter@) == Some(ipos),
                pos@.len() == filter@.len(),
                forall|a: int| 0 <= a < pos@.len() ==> (#[trigger] pos@[a]) < fields@.len(),
                forall|a: int| 0 <= a < pos@.len() ==> ipos[a] == (#[trigger] pos@[a]) as int,
                ipos.len() == pos@.len(),
                forall|j: int| 0 <= j < k ==> !row_matches(ipos, filter@, #[trigger] self.table(m as int)[j]),
            decreases rows.len() - k,
        {
            let row = &rows[k];
            proof {
                assert(self.tables@[m as int]@[k as int]@.len() == fields@.len());
                assert(self.table(m as int)[k as int] == views(row@));
            }
            let mut all = true;
            let mut e: usize = 0;
            while e < pos.len()
                invariant
                    0 <= e <= pos@.len(),
                    pos@.len() == filter@.len(),
                    row@.len() == fields@.len(),
                    forall|a: int| 0 <= a < pos@.len() ==> (#[trigger] pos@[a]) < fields@.len(),
                    forall|a: int| 0 <= a < pos@.len() ==> ipos[a] == (#[trigger] pos@[a]) as int,
                    ipos.len() == pos@.len(),
                    all <==> forall|a: int| 0 <= a < e ==> views(row@)[#[trigger] ipos[a]] == filter@[a].1@,
                    filter@.len() == ipos.len(),
                decreases pos@.len() - e,
            {
                proof {
                    assert(views(row@)[ipos[e as int]] == row@[pos@[e as int] as int]@);
                }
                if !value_eq(&row[pos[e]], &filter[e].1) {
                    all = false;
                }
                e = e + 1;
            }
            if all {
                return Ok(Some(k));
            }
            k = k + 1;
        }
        Ok(None)
    }
}

fn not_unique_filter_error() -> (r: ActionError)
    ensures
        r.kind == ErrorKind::InvalidOperation,
        r.message@ == msg_not_unique_filter(),
        r.errors@.len() == 0,
{
    ActionError::simple(ErrorKind::InvalidOperation, "Unique filter is expected.")
}

fn unique_error(field: &String) -> (r: ActionError)
    ensures
        r.kind == ErrorKind::ValidationError,
        r.message@ == msg_input_invalid(),
        r.errors@.len() == 1,
        r.errors@[0].0@ == field@,
        r.errors@[0].1@ == msg_unique(),
{
    let mut errors: Vec<(String, String)> = Vec::new();
    errors.push((field.clone(), String::from_str("Unique value duplicated.")));
    ActionError { kind: ErrorKind::ValidationError, message: String::from_str("Input is not valid."), errors }
}

fn internal_error() -> (r: ActionError)
    ensures
        r.kind == ErrorKind::InternalError,
{
    ActionError::simple(ErrorKind::InternalError, "Output pipeline failed.")
}

fn not_found_error() -> (r: ActionError)
    ensures
        r.kind == ErrorKind::ObjectNotFound,
        r.message@ == msg_not_found(),
{
    ActionError::simple(ErrorKind::ObjectNotFound, "Object is not found.")
}

/// The first row of `rows`, other than `skip`, that collides with `row`.
fn first_conflict(fields: &Vec<Field>, rows: &Vec<Vec<Value>>, row: &Vec<Value>, skip: Option<usize>) -> (r: Option<usize>)
    requires
        row@.len() == fields@.len(),
        forall|k: int| 0 <= k < rows@.len() ==> (#[trigger] rows@[k])@.len() == fields@.len(),
    ensures
        r is None <==> forall|k: int|
            0 <= k < rows@.len() && (skip is None || k != skip->0 as int) ==> !conflict(fields@, #[trigger] rows_view(rows@)[k], views(row@)),
        r matches Some(f) ==> f < fields@.len() && exists|k: int|
            0 <= k < rows@.len() && (skip is None || k != skip->0 as int) && conflict_through(fields@, #[trigger] rows_view(rows@)[k], views(row@), f as int),
{
    let mut k: usize = 0;
    while k < rows.len()
        invariant
            0 <= k <= rows@.len(),
            row@.len() == fields@.len(),
            forall|a: int| 0 <= a < rows@.len() ==> (#[trigger] rows@[a])@.len() == fields@.len(),
            forall|a: int|
                0 <= a < k && (skip is None || a != skip->0 as int) ==> !conflict(fields@, #[trigger] rows_view(rows@)[a], views(row@)),
        decreases rows@.len() - k,
    {
        if skip != Some(k) {
            proof {
                assert(rows_view(rows@)[k as int] == views(rows@[k as int]@));
            }
            match find_conflict(fields, &rows[k], row) {
                Some(f) => {
                    proof {
                        assert(conflict_through(fields@, rows_view(rows@)[k as int], views(row@), f as int));
                    }
                    return Some(f);
                },
                None => {},
            }
        }
        k = k + 1;
    }
    None
}

impl MemoryStore {
    /// Creates a row from a create input. The input is decoded (its error
    /// is returned as it is), database-assigned fields that are still null
    /// take the value of their type that the next identifier gives (an
    /// object id is 24 hexadecimal digits), `on_save` runs, and the row is refused
    /// when it collides with a stored row on a unique index.
    pub fn create(&mut self, g: &Graph, m: usize, payload: &Vec<(String, Value)>) -> (r: Result<Vec<(String, Value)>, ActionError>)
        requires
            old(self).wf(g),
            m < g.models@.len(),
        ensures
            final(self).wf(g),
            ({
                let fields = g.models@[m as int].fields@;
                match created_row(fields, payload@, g.enums@, old(self).next_id as int) {
                    None => r is Err && *final(self) == *old(self) && match decode_spec(fields, payload@, InputMode::Create, g.enums@) {
                        Err((kind, errs)) => r->Err_0.kind == kind && pair_views(r->Err_0.errors@) == errs
                            && (kind == ErrorKind::KeysUnallowed ==> r->Err_0.message@ == msg_keys_unallowed())
                            && (errs.len() > 0 ==> r->Err_0.message@ == errs[0].1),
                        Ok(_) => r->Err_0.kind == ErrorKind::ValidationError,
                    },
                    Some(row) => if exists|k: int| 0 <= k < old(self).table(m as int).len() && conflict(fields, #[trigger] old(self).table(m as int)[k], row) {
                        r is Err && r->Err_0.kind == ErrorKind::ValidationError && r->Err_0.message@ == msg_input_invalid()
                            && r->Err_0.errors@.len() == 1 && r->Err_0.errors@[0].1@ == msg_unique() && *final(self) == *old(self)
                            && exists|k: int, f: int|
                                0 <= k < old(self).table(m as int).len() && #[trigger] conflict_through(fields, old(self).table(m as int)[k], row, f)
                                    && r->Err_0.errors@[0].0@ == fields[f].name@
                    } else {
                        &&& r is Ok <==> (output_row(fields, row, fields.len() as int) is Ok && old(self).next_id < i128::MAX)
                        &&& r is Ok ==> final(self).table(m as int) == old(self).table(m as int).push(row)
                            && final(self).next_id == old(self).next_id + 1
                            && (forall|o: int| 0 <= o < final(self).tables@.len() && o != m ==> #[trigger] final(self).tables@[o] == old(self).tables@[o])
                            && output_row(fields, row, fields.len() as int) == Ok::<Seq<(Seq<char>, ValueV)>, int>(entry_views(r->Ok_0@))
                        &&& r is Err ==> *final(self) == *old(self)
                    },
                }
            }),
    {
        let model = &g.models[m];
        let fields = &model.fields;
        let n = fields.len();
        let plan = match decode(model, &g.enums, payload, InputMode::Create) {
            Ok(p) => p,
            Err(e) => return Err(e),
        };
        let ghost vals = opt_views(plan.values@);
        let mut obj = Object::new(m, n);
        proof {
            assert(obj.cur_view() =~= null_row(n as nat));
        }
        let _ = obj.apply(&plan);
        let ghost start = obj.cur_view();
        let id = self.next_id;
        let mut i: usize = 0;
        while i < n
            invariant
                0 <= i <= n,
                n == fields@.len(),
                *fields == g.models@[m as int].fields,
                obj.wf(),
                !obj.is_deleted,
                obj.current@.len() == n,
                start.len() == n,
                id >= 1,
                obj.cur_view() == Seq::new(n as nat, |x: int| if x < i && fields@[x].assigned_by_database && start[x] is Null { assigned_value(fields@[x].field_type, id as nat) } else { start[x] }),
            decreases n - i,
        {
            let is_null = match obj.get(i) {
                Value::Null => true,
                _ => false,
            };
            let ghost before = obj.cur_view();
            proof {
                assert(before[i as int] == start[i as int]);
            }
            if fields[i].assigned_by_database && is_null {
                let _ = obj.set(i, assigned_value_exec(&fields[i].field_type, id));
            }
            proof {
                assert(obj.cur_view() =~= Seq::new(n as nat, |x: int| if x < i + 1 && fields@[x].assigned_by_database && start[x] is Null { assigned_value(fields@[x].field_type, id as nat) } else { start[x] }));
            }
            i = i + 1;
        }
        let row = obj.row();
        proof {
            assert(views(row@) =~= with_ids(fields@, applied(null_row(n as nat), vals), id as int));
        }
        let mut mask: Vec<bool> = Vec::new();
        let mut q: usize = 0;
        while q < n
            invariant
                0 <= q <= n,
                mask@.len() == q,
                forall|x: int| 0 <= x < q ==> #[trigger] mask@[x],
            decreases n - q,
        {
            mask.push(true);
            q = q + 1;
        }
        proof {
            assert(mask@ =~= all_marked(n as nat));
        }
        let saved = match save_row(fields, &row, &mask) {
            Ok(s) => s,
            Err(f) => return Err(crate::output::invalid_field_error(&fields[f].name)),
        };
        proof {
            assert(self.tables@[m as int]@.len() == self.table(m as int).len());
            assert forall|k: int| 0 <= k < self.tables@[m as int]@.len() implies (#[trigger] self.tables@[m as int]@[k])@.len() == fields@.len() by {
                assert(self.tables@[m as int]@[k]@.len() == g.models@[m as int].fields@.len());
            }
        }
        match first_conflict(fields, &self.tables[m], &saved, None) {
            Some(f) => {
                proof {
                    let k = choose|k: int| 0 <= k < self.tables@[m as int]@.len() && conflict_through(fields@, #[trigger] rows_view(self.tables@[m as int]@)[k], views(saved@), f as int);
                    assert(self.table(m as int)[k] == rows_view(self.tables@[m as int]@)[k]);
                    assert(conflict_through(fields@, self.table(m as int)[k], views(saved@), f as int));
                    assert(primary_conflict(fields@, self.table(m as int)[k], views(saved@)) || single_conflict(fields@, self.table(m as int)[k], views(saved@), f as int) || compound_conflict(fields@, self.table(m as int)[k], views(saved@), f as int));
                    assert(conflict(fields@, self.table(m as int)[k], views(saved@)));
                }
                return Err(unique_error(&fields[f].name));
            },
            None => {},
        }
        let out = match output_of(fields, &saved) {
            Ok(o) => o,
            Err(_) => return Err(internal_error()),
        };
        if self.next_id == i128::MAX {
            return Err(ActionError::simple(ErrorKind::InternalError, "Identifiers are exhausted."));
        }
        let ghost old_tables = self.tables@;
        let ghost sv = views(saved@);
        let mut table = self.tables.remove(m);
        table.push(saved);
        self.tables.insert(m, table);
        self.next_id = self.next_id + 1;
        obj.commit();
        proof {
            assert(self.tables@ =~= old_tables.update(m as int, self.tables@[m as int]));
            assert(self.table(m as int) =~= old(self).table(m as int).push(sv));
            assert forall|o: int| 0 <= o < self.tables@.len() && o != m implies #[trigger] self.tables@[o] == old(self).tables@[o] by {}
            assert forall|mm: int, rr: int|
                0 <= mm < self.tables@.len() && 0 <= rr < self.tables@[mm]@.len() implies #[trigger] self.tables@[mm]@[rr]@.len() == g.models@[mm].fields@.len() by {
                if mm != m {
                    assert(self.tables@[mm] == old(self).tables@[mm]);
                } else if rr < old(self).tables@[mm]@.len() {
                    assert(self.tables@[mm]@[rr] == old(self).tables@[mm]@[rr]);
                }
            }
            assert forall|mm: int| 0 <= mm < self.tables@.len() implies table_unique(g.models@[mm].fields@, #[trigger] self.table(mm)) by {
                if mm != m {
                    assert(self.table(mm) == old(self).table(mm));
                } else {
                    let t = self.table(mm);
                    let ot = old(self).table(mm);
                    assert forall|a: int, b: int| #![trigger t[a], t[b]] 0 <= a < t.len() && 0 <= b < t.len() && a != b implies !conflict(fields@, t[a], t[b]) by {
                        if a < ot.len() && b < ot.len() {
                            assert(t[a] == ot[a] && t[b] == ot[b]);
                            assert(table_unique(fields@, ot));
                            assert(!conflict(fields@, ot[a], ot[b]));
                        } else if a < ot.len() {
                            assert(t[a] == ot[a]);
                            assert(t[b] == sv);
                            assert(!conflict(fields@, rows_view(old(self).tables@[m as int]@)[a], sv));
                            lemma_conflict_symmetric(fields@, sv, t[a]);
                            assert(!conflict(fields@, t[a], t[b]));
                        } else {
                            assert(t[b] == ot[b]);
                            assert(t[a] == sv);
                            assert(!conflict(fields@, rows_view(old(self).tables@[m as int]@)[b], sv));
                            lemma_conflict_symmetric(fields@, sv, t[b]);
                        }
                    }
                }
            }
        }
        Ok(out)
    }
}

/// The rows of which a filter holds, in table order.
pub open spec fn selected(rows: Seq<Seq<ValueV>>, w: Where) -> Seq<Seq<ValueV>>
    decreases rows.len(),
{
    if rows.len() == 0 {
        Seq::empty()
    } else {
        let prev = selected(rows.drop_last(), w);
        if holds(w, rows.last()) {
            prev.push(rows.last())
        } else {
            prev
        }
    }
}

pub open spec fn outputs_of(fields: Seq<Field>, rows: Seq<Seq<ValueV>>) -> Option<Seq<Seq<(Seq<char>, ValueV)>>> {
    if forall|i: int| 0 <= i < rows.len() ==> output_row(fields, #[trigger] rows[i], fields.len() as int) is Ok {
        Some(Seq::new(rows.len(), |i: int| output_row(fields, rows[i], fields.len() as int)->Ok_0))
    } else {
        None
    }
}

pub open spec fn outputs_view(v: Seq<Vec<(String, Value)>>) -> Seq<Seq<(Seq<char>, ValueV)>> {
    Seq::new(v.len(), |i: int| entry_views(v[i]@))
}

impl MemoryStore {
    /// The row that a unique filter names, as output.
    pub fn find_unique(&self, g: &Graph, m: usize, filter: &Vec<(String, Value)>) -> (r: Result<Vec<(String, Value)>, ActionError>)
        requires
            self.wf(g),
            m < g.models@.len(),
        ensures
            ({
                let fields = g.models@[m as int].fields@;
                let rows = self.table(m as int);
                if !is_unique_filter(fields, filter@) {
                    r is Err && r->Err_0.kind == ErrorKind::InvalidOperation
                } else {
                    let pos = filter_positions(fields, filter@)->0;
                    if forall|j: int| 0 <= j < rows.len() ==> !row_matches(pos, filter@, #[trigger] rows[j]) {
                        r is Err && r->Err_0.kind == ErrorKind::ObjectNotFound && r->Err_0.message@ == msg_not_found()
                    } else {
                        exists|k: int|
                            0 <= k < rows.len() && row_matches(pos, filter@, #[trigger] rows[k]) && (forall|j: int|
                                0 <= j < k ==> !row_matches(pos, filter@, #[trigger] rows[j])) && match output_row(fields, rows[k], fields.len() as int) {
                                Ok(o) => r is Ok && entry_views(r->Ok_0@) == o,
                                Err(_) => r is Err && r->Err_0.kind == ErrorKind::InternalError,
                            }
                    }
                }
            }),
    {
        match self.locate(g, m, filter) {
            Err(e) => Err(e),
            Ok(None) => Err(not_found_error()),
            Ok(Some(k)) => {
                let fields = &g.models[m].fields;
                let row = &self.tables[m][k];
                proof {
                    assert(self.tables@[m as int]@[k as int]@.len() == fields@.len());
                    assert(self.table(m as int)[k as int] == views(row@));
                }
                match output_of(fields, row) {
                    Ok(o) => Ok(o),
                    Err(_) => Err(internal_error()),
                }
            },
        }
    }

    /// The rows of which a filter holds, in table order, as output.
    pub fn find_many(&self, g: &Graph, m: usize, w: &Where) -> (r: Result<Vec<Vec<(String, Value)>>, ActionError>)
        requires
            self.wf(g),
            m < g.models@.len(),
        ensures
            match outputs_of(g.models@[m as int].fields@, selected(self.table(m as int), *w)) {
                Some(outs) => r is Ok && outputs_view(r->Ok_0@) == outs,
                None => r is Err && r->Err_0.kind == ErrorKind::InternalError,
            },
    {
        let fields = &g.models[m].fields;
        let rows = &self.tables[m];
        let ghost tv = self.table(m as int);
        let ghost fv = fields@;
        let mut out: Vec<Vec<(String, Value)>> = Vec::new();
        let ghost mut sel: Seq<Seq<ValueV>> = Seq::empty();
        let mut k: usize = 0;
        while k < rows.len()
            invariant
                0 <= k <= rows@.len(),
                tv == rows_view(rows@),
                tv == self.table(m as int),
                fv == fields@,
                fv == g.models@[m as int].fields@,
                forall|a: int| 0 <= a < rows@.len() ==> (#[trigger] rows@[a])@.len() == fields@.len(),
                sel == selected(tv.subrange(0, k as int), *w),
                out@.len() == sel.len(),
                forall|i: int| 0 <= i < sel.len() ==> output_row(fv, #[trigger] sel[i], fv.len() as int) == Ok::<Seq<(Seq<char>, ValueV)>, int>(entry_views(out@[i]@)),
            decreases rows@.len() - k,
        {
            proof {
                assert(tv.subrange(0, k + 1).drop_last() =~= tv.subrange(0, k as int));
                assert(tv[k as int] == views(rows@[k as int]@));
            }
            if w.matches(&rows[k]) {
                match output_of(fields, &rows[k]) {
                    Ok(o) => {
                        let ghost before = out@;
                        out.push(o);
                        proof {
                            sel = sel.push(tv[k as int]);
                            assert forall|i: int| 0 <= i < sel.len() implies output_row(fv, #[trigger] sel[i], fv.len() as int) == Ok::<Seq<(Seq<char>, ValueV)>, int>(entry_views(out@[i]@)) by {
                                if i < sel.len() - 1 {
                                    assert(out@[i] == before[i]);
                                }
                            }
                        }
                    },
                    Err(_) => {
                        proof {
                            lemma_selected_contains(tv, *w, k as int);
                            let i = choose|i: int| 0 <= i < selected(tv, *w).len() && #[trigger] selected(tv, *w)[i] == tv[k as int];
                            assert(output_row(fv, selected(tv, *w)[i], fv.len() as int) is Err);
                        }
                        return Err(internal_error());
                    },
                }
            }
            k = k + 1;
        }
        proof {
            assert(tv.subrange(0, k as int) =~= tv);
            assert(outputs_view(out@) =~= Seq::new(sel.len(), |i: int| output_row(fv, sel[i], fv.len() as int)->Ok_0));
        }
        Ok(out)
    }

    /// How many rows a filter holds of.
    pub fn count(&self, g: &Graph, m: usize, w: &Where) -> (r: usize)
        requires
            self.wf(g),
            m < g.models@.len(),
        ensures
            r as int == selected(self.table(m as int), *w).len(),
    {
        let rows = &self.tables[m];
        let ghost tv = self.table(m as int);
        let mut c: usize = 0;
        let mut k: usize = 0;
        while k < rows.len()
            invariant
                0 <= k <= rows@.len(),
                tv == rows_view(rows@),
                c as int == selected(tv.subrange(0, k as int), *w).len(),
                c <= k,
            decreases rows@.len() - k,
        {
            proof {
                assert(tv.subrange(0, k + 1).drop_last() =~= tv.subrange(0, k as int));
                assert(tv[k as int] == views(rows@[k as int]@));
            }
            if w.matches(&rows[k]) {
                c = c + 1;
            }
            k = k + 1;
        }
        proof {
            assert(tv.subrange(0, k as int) =~= tv);
        }
        c
    }
}

impl MemoryStore {
    /// Updates the row that a unique filter names. The input is decoded in
    /// update mode and assigned over the stored row; `on_save` runs on the
    /// fields whose value changed; the row is refused when it then collides
    /// with another stored row.
    pub fn update(&mut self, g: &Graph, m: usize, filter: &Vec<(String, Value)>, payload: &Vec<(String, Value)>) -> (r: Result<Vec<(String, Value)>, ActionError>)
        requires
            old(self).wf(g),
            m < g.models@.len(),
        ensures
            final(self).wf(g),
            ({
                let fields = g.models@[m as int].fields@;
                let rows = old(self).table(m as int);
                if !is_unique_filter(fields, filter@) {
                    r is Err && r->Err_0.kind == ErrorKind::InvalidOperation && *final(self) == *old(self)
                } else {
                    let pos = filter_positions(fields, filter@)->0;
                    if forall|j: int| 0 <= j < rows.len() ==> !row_matches(pos, filter@, #[trigger] rows[j]) {
                        r is Err && r->Err_0.kind == ErrorKind::ObjectNotFound && *final(self) == *old(self)
                    } else {
                        exists|k: int|
                            0 <= k < rows.len() && row_matches(pos, filter@, #[trigger] rows[k]) && (forall|j: int|
                                0 <= j < k ==> !row_matches(pos, filter@, #[trigger] rows[j])) && match updated_row(fields, rows[k], payload@, g.enums@) {
                                None => r is Err && *final(self) == *old(self) && match decode_spec(fields, payload@, InputMode::Update, g.enums@) {
                                    Err((kind, errs)) => r->Err_0.kind == kind && pair_views(r->Err_0.errors@) == errs
                                        && (kind == ErrorKind::KeysUnallowed ==> r->Err_0.message@ == msg_keys_unallowed())
                                        && (errs.len() > 0 ==> r->Err_0.message@ == errs[0].1),
                                    Ok(_) => true,
                                },
                                Some(row) => if exists|j: int| 0 <= j < rows.len() && j != k && conflict(fields, #[trigger] rows[j], row) {
                                    r is Err && r->Err_0.kind == ErrorKind::ValidationError && r->Err_0.message@ == msg_input_invalid() && *final(self) == *old(self)
                                        && r->Err_0.errors@.len() == 1 && r->Err_0.errors@[0].1@ == msg_unique()
                                        && exists|j2: int, f: int|
                                            0 <= j2 < rows.len() && j2 != k && #[trigger] conflict_through(fields, rows[j2], row, f)
                                                && r->Err_0.errors@[0].0@ == fields[f].name@
                                } else {
                                    &&& r is Ok <==> output_row(fields, row, fields.len() as int) is Ok
                                    &&& r is Ok ==> final(self).table(m as int) == rows.update(k, row)
                                        && (forall|o: int| 0 <= o < final(self).tables@.len() && o != m ==> #[trigger] final(self).tables@[o] == old(self).tables@[o])
                                        && output_row(fields, row, fields.len() as int) == Ok::<Seq<(Seq<char>, ValueV)>, int>(entry_views(r->Ok_0@))
                                    &&& r is Err ==> *final(self) == *old(self)
                                },
                            }
                    }
                }
            }),
    {
        let k = match self.locate(g, m, filter) {
            Err(e) => return Err(e),
            Ok(None) => return Err(not_found_error()),
            Ok(Some(k)) => k,
        };
        let model = &g.models[m];
        let fields = &model.fields;
        let n = fields.len();
        proof {
            assert(self.tables@[m as int]@[k as int]@.len() == fields@.len());
            assert(self.table(m as int)[k as int] == views(self.tables@[m as int]@[k as int]@));
        }
        let plan = match decode(model, &g.enums, payload, InputMode::Update) {
            Ok(p) => p,
            Err(e) => return Err(e),
        };
        let ghost vals = opt_views(plan.values@);
        proof {
            assert(vals.len() == n);
        }
        if !write_once_respected(fields, &self.tables[m][k], &plan) {
            return Err(ActionError::simple(ErrorKind::InvalidOperation, "Value can only be set once."));
        }
        let mut obj = Object::from_row(m, &self.tables[m][k]);
        let ghost start = obj.cur_view();
        proof {
            assert(opt_views(plan.values@).len() == plan.values@.len());
            assert(obj.cur_view().len() == obj.current@.len());
            assert(views(self.tables@[m as int]@[k as int]@).len() == n);
        }
        let _ = obj.apply(&plan);
        let row = obj.row();
        proof {
            assert(views(row@).len() == row@.len());
            assert(row@.len() == n);
            assert(obj.modified@ =~= changed_mask(start, views(row@)));
        }
        let saved = match save_row(fields, &row, &obj.modified) {
            Ok(s) => s,
            Err(f) => return Err(crate::output::invalid_field_error(&fields[f].name)),
        };
        proof {
            assert forall|q: int| 0 <= q < self.tables@[m as int]@.len() implies (#[trigger] self.tables@[m as int]@[q])@.len() == fields@.len() by {
                assert(self.tables@[m as int]@[q]@.len() == g.models@[m as int].fields@.len());
            }
        }
        match first_conflict(fields, &self.tables[m], &saved, Some(k)) {
            Some(f) => {
                proof {
                    let j = choose|j: int| 0 <= j < self.tables@[m as int]@.len() && (Some(k) is None || j != Some(k)->0 as int) && conflict_through(fields@, #[trigger] rows_view(self.tables@[m as int]@)[j], views(saved@), f as int);
                    assert(self.table(m as int)[j] == rows_view(self.tables@[m as int]@)[j]);
                    assert(conflict_through(fields@, self.table(m as int)[j], views(saved@), f as int));
                    assert(primary_conflict(fields@, self.table(m as int)[j], views(saved@)) || single_conflict(fields@, self.table(m as int)[j], views(saved@), f as int) || compound_conflict(fields@, self.table(m as int)[j], views(saved@), f as int));
                    assert(conflict(fields@, self.table(m as int)[j], views(saved@)));
                }
                return Err(unique_error(&fields[f].name));
            },
            None => {},
        }
        let out = match output_of(fields, &saved) {
            Ok(o) => o,
            Err(_) => return Err(internal_error()),
        };
        let ghost old_tables = self.tables@;
        let ghost sv = views(saved@);
        let mut table = self.tables.remove(m);
        table.set(k, saved);
        self.tables.insert(m, table);
        obj.commit();
        proof {
            assert(self.tables@ =~= old_tables.update(m as int, self.tables@[m as int]));
            assert(self.table(m as int) =~= old(self).table(m as int).update(k as int, sv));
            assert forall|o: int| 0 <= o < self.tables@.len() && o != m implies #[trigger] self.tables@[o] == old(self).tables@[o] by {}
            assert forall|mm: int, rr: int|
                0 <= mm < self.tables@.len() && 0 <= rr < self.tables@[mm]@.len() implies #[trigger] self.tables@[mm]@[rr]@.len() == g.models@[mm].fields@.len() by {
                if mm != m {
                    assert(self.tables@[mm] == old(self).tables@[mm]);
                } else if rr != k {
                    assert(self.tables@[mm]@[rr] == old(self).tables@[mm]@[rr]);
                }
            }
            assert forall|j: int| 0 <= j < old(self).table(m as int).len() && j != k implies !conflict(fields@, #[trigger] old(self).table(m as int)[j], sv) by {
                assert(old(self).table(m as int)[j] == rows_view(old(self).tables@[m as int]@)[j]);
            }
            lemma_replace_keeps_unique(fields@, old(self).table(m as int), k as int, sv);
            assert forall|mm: int| 0 <= mm < self.tables@.len() implies table_unique(g.models@[mm].fields@, #[trigger] self.table(mm)) by {
                if mm != m {
                    assert(self.table(mm) == old(self).table(mm));
                }
            }
        }
        Ok(out)
    }

    /// Deletes the row that a unique filter names and returns it as output.
    pub fn delete(&mut self, g: &Graph, m: usize, filter: &Vec<(String, Value)>) -> (r: Result<Vec<(String, Value)>, ActionError>)
        requires
            old(self).wf(g),
            m < g.models@.len(),
        ensures
            final(self).wf(g),
            ({
                let fields = g.models@[m as int].fields@;
                let rows = old(self).table(m as int);
                if !is_unique_filter(fields, filter@) {
                    r is Err && r->Err_0.kind == ErrorKind::InvalidOperation && *final(self) == *old(self)
                } else {
                    let pos = filter_positions(fields, filter@)->0;
                    if forall|j: int| 0 <= j < rows.len() ==> !row_matches(pos, filter@, #[trigger] rows[j]) {
                        r is Err && r->Err_0.kind == ErrorKind::ObjectNotFound && *final(self) == *old(self)
                    } else {
                        exists|k: int|
                            0 <= k < rows.len() && row_matches(pos, filter@, #[trigger] rows[k]) && (forall|j: int|
                                0 <= j < k ==> !row_matches(pos, filter@, #[trigger] rows[j])) && match output_row(fields, rows[k], fields.len() as int) {
                                Ok(o) => r is Ok && entry_views(r->Ok_0@) == o && final(self).table(m as int) == rows.remove(k)
                                    && (forall|q: int| 0 <= q < final(self).tables@.len() && q != m ==> #[trigger] final(self).tables@[q] == old(self).tables@[q]),
                                Err(_) => r is Err && *final(self) == *old(self),
                            }
                    }
                }
            }),
    {
        let k = match self.locate(g, m, filter) {
            Err(e) => return Err(e),
            Ok(None) => return Err(not_found_error()),
            Ok(Some(k)) => k,
        };
        let fields = &g.models[m].fields;
        proof {
            assert(self.tables@[m as int]@[k as int]@.len() == fields@.len());
            assert(self.table(m as int)[k as int] == views(self.tables@[m as int]@[k as int]@));
        }
        let out = match output_of(fields, &self.tables[m][k]) {
            Ok(o) => o,
            Err(_) => return Err(internal_error()),
        };
        let ghost old_tables = self.tables@;
        let mut table = self.tables.remove(m);
        let _ = table.remove(k);
        self.tables.insert(m, table);
        proof {
            assert(self.tables@ =~= old_tables.update(m as int, self.tables@[m as int]));
            assert(self.table(m as int) =~= old(self).table(m as int).remove(k as int));
            assert forall|o: int| 0 <= o < self.tables@.len() && o != m implies #[trigger] self.tables@[o] == old(self).tables@[o] by {}
            assert forall|mm: int, rr: int|
                0 <= mm < self.tables@.len() && 0 <= rr < self.tables@[mm]@.len() implies #[trigger] self.tables@[mm]@[rr]@.len() == g.models@[mm].fields@.len() by {
                if mm != m {
                    assert(self.tables@[mm] == old(self).tables@[mm]);
                } else if rr < k {
                    assert(self.tables@[mm]@[rr] == old(self).tables@[mm]@[rr]);
                } else {
                    assert(self.tables@[mm]@[rr] == old(self).tables@[mm]@[rr + 1]);
                }
            }
            assert forall|mm: int| 0 <= mm < self.tables@.len() implies table_unique(g.models@[mm].fields@, #[trigger] self.table(mm)) by {
                if mm != m {
                    assert(self.table(mm) == old(self).table(mm));
                } else {
                    let t = self.table(mm);
                    let ot = old(self).table(mm);
                    assert forall|a: int, b: int| #![trigger t[a], t[b]] 0 <= a < t.len() && 0 <= b < t.len() && a != b implies !conflict(fields@, t[a], t[b]) by {
                        let oa = if a < k { a } else { a + 1 };
                        let ob = if b < k { b } else { b + 1 };
                        assert(t[a] == ot[oa] && t[b] == ot[ob]);
                        assert(table_unique(fields@, ot));
                    }
                }
            }
        }
        Ok(out)
    }
}

/// The page size of batch reads.
pub const BATCH_SIZE: usize = 200;

impl MemoryStore {
    /// The rows of which a filter holds, skipping the first `skip` of them
    /// and keeping at most `take`, as output. Only the rows of the page are
    /// shaped for output.
    pub fn find_page(&self, g: &Graph, m: usize, w: &Where, skip: usize, take: usize) -> (r: Result<Vec<Vec<(String, Value)>>, ActionError>)
        requires
            self.wf(g),
            m < g.models@.len(),
        ensures
            ({
                let sel = selected(self.table(m as int), *w);
                let lo = if skip as int <= sel.len() { skip as int } else { sel.len() as int };
                let hi = if lo + take as int <= sel.len() { lo + take as int } else { sel.len() as int };
                match outputs_of(g.models@[m as int].fields@, sel.subrange(lo, hi)) {
                    Some(outs) => r is Ok && outputs_view(r->Ok_0@) == outs,
                    None => r is Err && r->Err_0.kind == ErrorKind::InternalError,
                }
            }),
    {
        let n = self.count(g, m, w);
        let fields = &g.models[m].fields;
        let rows = &self.tables[m];
        let ghost tv = self.table(m as int);
        let ghost fv = fields@;
        let ghost sel = selected(tv, *w);
        let lo = if skip <= n { skip } else { n };
        let hi = if take <= n - lo { lo + take } else { n };
        let ghost sub = sel.subrange(lo as int, hi as int);
        let mut page: Vec<Vec<(String, Value)>> = Vec::new();
        let mut c: usize = 0;
        let mut k: usize = 0;
        while k < rows.len()
            invariant
                0 <= k <= rows@.len(),
                tv == rows_view(rows@),
                tv == self.table(m as int),
                fv == fields@,
                fv == g.models@[m as int].fields@,
                sel == selected(tv, *w),
                n == sel.len(),
                lo as int == (if skip <= n { skip as int } else { n as int }),
                hi as int == (if take <= n - lo { lo + take } else { n as int }),
                lo <= hi <= n,
                sub == sel.subrange(lo as int, hi as int),
                forall|a: int| 0 <= a < rows@.len() ==> (#[trigger] rows@[a])@.len() == fields@.len(),
                c as int == selected(tv.subrange(0, k as int), *w).len(),
                c <= n,
                page@.len() == (if c <= lo { 0 } else if c <= hi { c - lo } else { hi - lo }),
                forall|i: int| 0 <= i < page@.len() ==> output_row(fv, #[trigger] sub[i], fv.len() as int) == Ok::<Seq<(Seq<char>, ValueV)>, int>(entry_views(page@[i]@)),
            decreases rows@.len() - k,
        {
            proof {
                assert(tv.subrange(0, k + 1).drop_last() =~= tv.subrange(0, k as int));
                assert(tv[k as int] == views(rows@[k as int]@));
                lemma_selected_prefix(tv, *w, k as int + 1, tv.len() as int);
                lemma_selected_prefix(tv, *w, k as int, k as int + 1);
                assert(tv.subrange(0, tv.len() as int) =~= tv);
            }
            if w.matches(&rows[k]) {
                proof {
                    assert(selected(tv.subrange(0, k + 1), *w)[c as int] == tv[k as int]);
                    assert(sel[c as int] == tv[k as int]);
                }
                if lo <= c && c < hi {
                    match output_of(fields, &rows[k]) {
                        Ok(o) => {
                            let ghost before = page@;
                            page.push(o);
                            proof {
                                assert(sub[c - lo] == tv[k as int]);
                                assert forall|i: int| 0 <= i < page@.len() implies output_row(fv, #[trigger] sub[i], fv.len() as int) == Ok::<Seq<(Seq<char>, ValueV)>, int>(entry_views(page@[i]@)) by {
                                    if i < page@.len() - 1 {
                                        assert(page@[i] == before[i]);
                                    }
                                }
                            }
                        },
                        Err(_) => {
                            proof {
                                assert(sub[c - lo] == tv[k as int]);
                                assert(!(output_row(fv, sub[c - lo], fv.len() as int) is Ok));
                                assert(outputs_of(fv, sub) is None);
                            }
                            return Err(internal_error());
                        },
                    }
                }
                c = c + 1;
            }
            k = k + 1;
        }
        proof {
            assert(tv.subrange(0, k as int) =~= tv);
            assert(page@.len() == sub.len());
            assert(outputs_view(page@) =~= Seq::new(sub.len(), |i: int| output_row(fv, sub[i], fv.len() as int)->Ok_0));
        }
        Ok(page)
    }

    /// The first row of which a filter holds, as output; `ObjectNotFound`
    /// when there is none.
    pub fn find_first(&self, g: &Graph, m: usize, w: &Where) -> (r: Result<Vec<(String, Value)>, ActionError>)
        requires
            self.wf(g),
            m < g.models@.len(),
        ensures
            ({
                let sel = selected(self.table(m as int), *w);
                let fields = g.models@[m as int].fields@;
                if sel.len() == 0 {
                    r is Err && r->Err_0.kind == ErrorKind::ObjectNotFound
                } else {
                    match output_row(fields, sel[0], fields.len() as int) {
                        Ok(o) => r is Ok && entry_views(r->Ok_0@) == o,
                        Err(_) => r is Err && r->Err_0.kind == ErrorKind::InternalError,
                    }
                }
            }),
    {
        let rows = &self.tables[m];
        let fields = &g.models[m].fields;
        let ghost tv = self.table(m as int);
        let mut k: usize = 0;
        while k < rows.len()
            invariant
                0 <= k <= rows@.len(),
                tv == rows_view(rows@),
                tv == self.table(m as int),
                *fields == g.models@[m as int].fields,
                forall|a: int| 0 <= a < rows@.len() ==> (#[trigger] rows@[a])@.len() == fields@.len(),
                selected(tv.subrange(0, k as int), *w).len() == 0,
            decreases rows@.len() - k,
        {
            proof {
                assert(tv.subrange(0, k + 1).drop_last() =~= tv.subrange(0, k as int));
                assert(tv[k as int] == views(rows@[k as int]@));
            }
            if w.matches(&rows[k]) {
                proof {
                    lemma_selected_prefix(tv, *w, k as int + 1, tv.len() as int);
                    assert(tv.subrange(0, tv.len() as int) =~= tv);
                    assert(selected(tv.subrange(0, k + 1), *w) =~= seq![tv[k as int]]);
                }
                let found = output_of(fields, &rows[k]);
                proof {
                    assert(selected(tv.subrange(0, k + 1), *w)[0] == tv[k as int]);
                    assert(selected(tv.subrange(0, tv.len() as int), *w)[0] == tv[k as int]);
                    assert(selected(tv, *w)[0] == tv[k as int]);
                }
                match found {
                    Ok(o) => {
                        return Ok(o);
                    },
                    Err(_) => {
                        return Err(internal_error());
                    },
                }
            }
            k = k + 1;
        }
        proof {
            assert(tv.subrange(0, k as int) =~= tv);
        }
        Err(not_found_error())
    }
}

impl MemoryStore {
    /// Every row of which a filter holds, read page by page: pages of
    /// [`BATCH_SIZE`] rows until a page comes back shorter.
    pub fn batch(&self, g: &Graph, m: usize, w: &Where) -> (r: Result<Vec<Vec<(String, Value)>>, ActionError>)
        requires
            self.wf(g),
            m < g.models@.len(),
        ensures
            match outputs_of(g.models@[m as int].fields@, selected(self.table(m as int), *w)) {
                Some(outs) => r is Ok && outputs_view(r->Ok_0@) == outs,
                None => r is Err && r->Err_0.kind == ErrorKind::InternalError,
            },
    {
        let ghost sel = selected(self.table(m as int), *w);
        let ghost fields = g.models@[m as int].fields@;
        let total = self.tables[m].len();
        proof {
            lemma_selected_len(self.table(m as int), *w);
        }
        let mut out: Vec<Vec<(String, Value)>> = Vec::new();
        let mut skip: usize = 0;
        loop
            invariant
                sel.len() <= total,
                self.wf(g),
                m < g.models@.len(),
                sel == selected(self.table(m as int), *w),
                fields == g.models@[m as int].fields@,
                skip <= sel.len(),
                out@.len() == skip,
                forall|i: int| 0 <= i < skip ==> output_row(fields, #[trigger] sel[i], fields.len() as int) == Ok::<Seq<(Seq<char>, ValueV)>, int>(entry_views(out@[i]@)),
            decreases sel.len() - skip,
        {
            let page_r = self.find_page(g, m, w, skip, BATCH_SIZE);
            let ghost hi = if skip + BATCH_SIZE <= sel.len() { skip + BATCH_SIZE } else { sel.len() as int };
            let ghost sub = sel.subrange(skip as int, hi);
            let mut page = match page_r {
                Ok(p) => p,
                Err(e) => {
                    proof {
                        let i = choose|i: int| 0 <= i < sub.len() && !(output_row(fields, #[trigger] sub[i], fields.len() as int) is Ok);
                        assert(sel[skip + i] == sub[i]);
                        assert(!(output_row(fields, sel[skip + i], fields.len() as int) is Ok));
                    }
                    return Err(e);
                },
            };
            let ghost before = out@;
            let ghost pg = page@;
            proof {
                assert(outputs_of(fields, sub) is Some);
                assert(outputs_view(pg).len() == pg.len());
                assert(outputs_view(pg) == outputs_of(fields, sub)->0);
            }
            let n = page.len();
            out.append(&mut page);
            proof {
                assert(out@ =~= before + pg);
                assert(n == sub.len());
                assert forall|i: int| 0 <= i < skip + n implies output_row(fields, #[trigger] sel[i], fields.len() as int) == Ok::<Seq<(Seq<char>, ValueV)>, int>(entry_views(out@[i]@)) by {
                    if i >= skip {
                        assert(sub[i - skip] == sel[i]);
                        assert(out@[i] == pg[i - skip]);
                        assert(outputs_view(pg)[i - skip] == entry_views(pg[i - skip]@));
                    } else {
                        assert(out@[i] == before[i]);
                    }
                }
            }
            if n < BATCH_SIZE {
                proof {
                    assert(skip + n == sel.len());
                    assert(outputs_view(out@) =~= Seq::new(sel.len(), |i: int| output_row(fields, sel[i], fields.len() as int)->Ok_0));
                }
                return Ok(out);
            }
            proof {
                assert(skip + n <= sel.len());
            }
            skip = skip + n;
        }
    }
}

proof fn lemma_selected_len(rows: Seq<Seq<ValueV>>, w: Where)
    ensures
        selected(rows, w).len() <= rows.len(),
    decreases rows.len(),
{
    if rows.len() > 0 {
        lemma_selected_len(rows.drop_last(), w);
    }
}

impl MemoryStore {
    /// The row that a unique filter names, as an object: it is stored, so
    /// it is not new and nothing in it is modified.
    pub fn find_unique_object(&self, g: &Graph, m: usize, filter: &Vec<(String, Value)>) -> (r: Result<Object, ActionError>)
        requires
            self.wf(g),
            m < g.models@.len(),
        ensures
            ({
                let fields = g.models@[m as int].fields@;
                let rows = self.table(m as int);
                if !is_unique_filter(fields, filter@) {
                    r is Err && r->Err_0.kind == ErrorKind::InvalidOperation
                } else {
                    let pos = filter_positions(fields, filter@)->0;
                    if forall|j: int| 0 <= j < rows.len() ==> !row_matches(pos, filter@, #[trigger] rows[j]) {
                        r is Err && r->Err_0.kind == ErrorKind::ObjectNotFound
                    } else {
                        exists|k: int|
                            0 <= k < rows.len() && row_matches(pos, filter@, #[trigger] rows[k]) && (forall|j: int|
                                0 <= j < k ==> !row_matches(pos, filter@, #[trigger] rows[j])) && r is Ok && {
                                let o = r->Ok_0;
                                &&& o.wf()
                                &&& !o.is_new
                                &&& o.model == m
                                &&& o.modified_set().is_empty()
                                &&& o.prev_view() == rows[k]
                                &&& o.cur_view() == rows[k]
                            }
                    }
                }
            }),
    {
        match self.locate(g, m, filter) {
            Err(e) => Err(e),
            Ok(None) => Err(not_found_error()),
            Ok(Some(k)) => {
                proof {
                    assert(self.table(m as int)[k as int] == views(self.tables@[m as int]@[k as int]@));
                }
                Ok(Object::from_row(m, &self.tables[m][k]))
            },
        }
    }
}

/// The integers that field `f` holds across rows, in row order; other
/// values are skipped.
pub open spec fn int_values(rows: Seq<Seq<ValueV>>, f: int) -> Seq<int>
    decreases rows.len(),
{
    if rows.len() == 0 {
        Seq::empty()
    } else {
        let prev = int_values(rows.drop_last(), f);
        match rows.last()[f] {
            ValueV::Int(i) => prev.push(i),
            _ => prev,
        }
    }
}

pub open spec fn seq_sum(s: Seq<int>) -> int
    decreases s.len(),
{
    if s.len() == 0 {
        0
    } else {
        seq_sum(s.drop_last()) + s.last()
    }
}

pub open spec fn seq_min(s: Seq<int>) -> Option<int>
    decreases s.len(),
{
    if s.len() == 0 {
        None
    } else {
        match seq_min(s.drop_last()) {
            Some(m) => Some(if s.last() < m { s.last() } else { m }),
            None => Some(s.last()),
        }
    }
}

pub open spec fn seq_max(s: Seq<int>) -> Option<int>
    decreases s.len(),
{
    if s.len() == 0 {
        None
    } else {
        match seq_max(s.drop_last()) {
            Some(m) => Some(if s.last() > m { s.last() } else { m }),
            None => Some(s.last()),
        }
    }
}

/// Aggregates over the selected rows: how many there are, and the sum,
/// least and greatest of the integers one field holds.
pub struct Aggregate {
    pub count: usize,
    pub sum: i128,
    pub min: Option<i128>,
    pub max: Option<i128>,
}

pub open spec fn opt_int(o: Option<i128>) -> Option<int> {
    match o {
        Some(i) => Some(i as int),
        None => None,
    }
}

impl MemoryStore {
    /// Count, sum, minimum and maximum of field `f` over the rows a filter
    /// selects. A sum that leaves the 128-bit range is refused.
    pub fn aggregate(&self, g: &Graph, m: usize, w: &Where, f: usize) -> (r: Result<Aggregate, ActionError>)
        requires
            self.wf(g),
            m < g.models@.len(),
            f < g.models@[m as int].fields@.len(),
        ensures
            ({
                let sel = selected(self.table(m as int), *w);
                let vals = int_values(sel, f as int);
                match r {
                    Ok(a) => a.count as int == sel.len() && a.sum as int == seq_sum(vals) && opt_int(a.min)
                        == seq_min(vals) && opt_int(a.max) == seq_max(vals),
                    Err(e) => e.kind == ErrorKind::InternalError && exists|j: int|
                        0 <= j <= vals.len() && !(i128::MIN <= #[trigger] seq_sum(vals.subrange(0, j)) <= i128::MAX),
                }
            }),
    {
        let rows = &self.tables[m];
        let ghost tv = self.table(m as int);
        let ghost sel = selected(tv, *w);
        let mut count: usize = 0;
        let mut sum: i128 = 0;
        let mut min: Option<i128> = None;
        let mut max: Option<i128> = None;
        let mut k: usize = 0;
        proof {
            lemma_selected_len(tv, *w);
        }
        while k < rows.len()
            invariant
                0 <= k <= rows@.len(),
                tv == rows_view(rows@),
                tv == self.table(m as int),
                sel == selected(tv, *w),
                self.wf(g),
                m < g.models@.len(),
                f < g.models@[m as int].fields@.len(),
                *rows == self.tables@[m as int],
                count as int == selected(tv.subrange(0, k as int), *w).len(),
                count <= k,
                sum as int == seq_sum(int_values(selected(tv.subrange(0, k as int), *w), f as int)),
                opt_int(min) == seq_min(int_values(selected(tv.subrange(0, k as int), *w), f as int)),
                opt_int(max) == seq_max(int_values(selected(tv.subrange(0, k as int), *w), f as int)),
                forall|j: int| 0 <= j <= int_values(selected(tv.subrange(0, k as int), *w), f as int).len() ==>
                    i128::MIN <= #[trigger] seq_sum(int_values(selected(tv.subrange(0, k as int), *w), f as int).subrange(0, j)) <= i128::MAX,
            decreases rows@.len() - k,
        {
            let ghost pre = selected(tv.subrange(0, k as int), *w);
            proof {
                assert(tv.subrange(0, k + 1).drop_last() =~= tv.subrange(0, k as int));
                assert(tv[k as int] == views(rows@[k as int]@));
                assert(self.tables@[m as int]@[k as int]@.len() == g.models@[m as int].fields@.len());
                lemma_selected_prefix(tv, *w, k as int + 1, tv.len() as int);
                lemma_selected_prefix(tv, *w, k as int, k as int + 1);
                assert(tv.subrange(0, tv.len() as int) =~= tv);
            }
            if w.matches(&rows[k]) {
                let ghost cur = selected(tv.subrange(0, k + 1), *w);
                proof {
                    assert(cur == pre.push(tv[k as int]));
                    assert(cur.drop_last() =~= pre);
                    assert(tv[k as int][f as int] == rows@[k as int]@[f as int]@);
                }
                count = count + 1;
                match &rows[k][f] {
                    Value::Int(v) => {
                        let ghost iv = int_values(pre, f as int);
                        let ghost nv = int_values(cur, f as int);
                        proof {
                            assert(nv == iv.push(*v as int));
                            assert(nv.drop_last() =~= iv);
                        }
                        let next = sum.checked_add(*v);
                        match next {
                            Some(t) => {
                                sum = t;
                            },
                            None => {
                                proof {
                                    assert(nv.subrange(0, nv.len() as int) =~= nv);
                                    assert(selected(tv.subrange(0, tv.len() as int), *w) == sel);
                                    assert(sel.subrange(0, cur.len() as int) =~= cur);
                                    lemma_int_values_prefix(sel, cur, f as int);
                                    assert(int_values(sel, f as int).subrange(0, nv.len() as int) =~= nv);
                                    assert(!(i128::MIN <= seq_sum(int_values(sel, f as int).subrange(0, nv.len() as int)) <= i128::MAX));
                                }
                                return Err(ActionError::simple(ErrorKind::InternalError, "Sum is out of range."));
                            },
                        }
                        min = match min {
                            Some(a) => Some(if *v < a { *v } else { a }),
                            None => Some(*v),
                        };
                        max = match max {
                            Some(a) => Some(if *v > a { *v } else { a }),
                            None => Some(*v),
                        };
                        proof {
                            assert forall|j: int| 0 <= j <= nv.len() implies i128::MIN <= #[trigger] seq_sum(nv.subrange(0, j)) <= i128::MAX by {
                                if j < nv.len() {
                                    assert(nv.subrange(0, j) =~= iv.subrange(0, j));
                                } else {
                                    assert(nv.subrange(0, j) =~= nv);
                                }
                            }
                        }
                    },
                    _ => {
                        proof {
                            assert(int_values(cur, f as int) == int_values(pre, f as int));
                        }
                    },
                }
            }
            k = k + 1;
        }
        proof {
            assert(tv.subrange(0, k as int) =~= tv);
        }
        Ok(Aggregate { count, sum, min, max })
    }
}

/// The integers of a prefix of the selected rows come first among those
/// of all of them.
proof fn lemma_int_values_prefix(all: Seq<Seq<ValueV>>, pre: Seq<Seq<ValueV>>, f: int)
    requires
        pre.len() <= all.len(),
        all.subrange(0, pre.len() as int) == pre,
    ensures
        int_values(pre, f).len() <= int_values(all, f).len(),
        int_values(all, f).subrange(0, int_values(pre, f).len() as int) == int_values(pre, f),
    decreases all.len() - pre.len(),
{
    if pre.len() < all.len() {
        let all2 = all.drop_last();
        assert(all2.subrange(0, pre.len() as int) =~= pre);
        lemma_int_values_prefix(all2, pre, f);
        let a = int_values(all2, f);
        let b = int_values(all, f);
        assert(b.subrange(0, a.len() as int) =~= a);
        assert(b.subrange(0, int_values(pre, f).len() as int) =~= a.subrange(0, int_values(pre, f).len() as int));
    } else {
        assert(all =~= pre);
        assert(int_values(all, f).subrange(0, int_values(pre, f).len() as int) =~= int_values(pre, f));
    }
}

/// The values of field `f` across rows.
pub open spec fn field_values(rows: Seq<Seq<ValueV>>, f: int) -> Seq<ValueV> {
    rows.map_values(|r: Seq<ValueV>| r[f])
}

/// The distinct values of a list, in order of first appearance.
pub open spec fn distinct_values(vs: Seq<ValueV>) -> Seq<ValueV>
    decreases vs.len(),
{
    if vs.len() == 0 {
        Seq::empty()
    } else {
        let prev = distinct_values(vs.drop_last());
        if prev.contains(vs.last()) {
            prev
        } else {
            prev.push(vs.last())
        }
    }
}

/// How many times a value occurs in a list.
pub open spec fn count_in(vs: Seq<ValueV>, v: ValueV) -> int
    decreases vs.len(),
{
    if vs.len() == 0 {
        0
    } else {
        count_in(vs.drop_last(), v) + if vs.last() == v { 1int } else { 0int }
    }
}

proof fn lemma_distinct_no_repeats(vs: Seq<ValueV>)
    ensures
        forall|a: int, b: int|
            #![trigger distinct_values(vs)[a], distinct_values(vs)[b]]
            0 <= a < b < distinct_values(vs).len() ==> distinct_values(vs)[a] != distinct_values(vs)[b],
    decreases vs.len(),
{
    if vs.len() > 0 {
        let d = vs.drop_last();
        lemma_distinct_no_repeats(d);
        let p = distinct_values(d);
        if !p.contains(vs.last()) {
            let q = p.push(vs.last());
            assert forall|a: int, b: int| 0 <= a < b < q.len() implies #[trigger] q[a] != #[trigger] q[b] by {
                if b == p.len() {
                    assert(q[a] == p[a]);
                } else {
                    assert(q[a] == p[a] && q[b] == p[b]);
                }
            }
        }
    }
}

proof fn lemma_distinct_members(vs: Seq<ValueV>, v: ValueV)
    ensures
        distinct_values(vs).contains(v) <==> vs.contains(v),
        !vs.contains(v) ==> count_in(vs, v) == 0,
    decreases vs.len(),
{
    if vs.len() > 0 {
        let d = vs.drop_last();
        lemma_distinct_members(d, v);
        if vs.contains(v) && !d.contains(v) {
            let i = choose|i: int| 0 <= i < vs.len() && vs[i] == v;
            if i < d.len() {
                assert(d[i] == v);
            }
            assert(vs.last() == v);
        }
        if d.contains(v) {
            let i = choose|i: int| 0 <= i < d.len() && d[i] == v;
            assert(vs[i] == v);
        }
        let p = distinct_values(d);
        if !p.contains(vs.last()) {
            if p.push(vs.last()).contains(v) && v != vs.last() {
                let i = choose|i: int| 0 <= i < p.push(vs.last()).len() && p.push(vs.last())[i] == v;
                assert(p[i] == v);
            }
            if p.contains(v) {
                let i = choose|i: int| 0 <= i < p.len() && p[i] == v;
                assert(p.push(vs.last())[i] == v);
            }
            assert(p.push(vs.last())[p.len() as int] == vs.last());
        }
    }
}

impl MemoryStore {
    /// The distinct values of field `f` among the rows a filter selects, in
    /// order of first appearance, each with the number of rows holding it.
    pub fn group_by(&self, g: &Graph, m: usize, w: &Where, f: usize) -> (r: Vec<(Value, usize)>)
        requires
            self.wf(g),
            m < g.models@.len(),
            f < g.models@[m as int].fields@.len(),
        ensures
            ({
                let vs = field_values(selected(self.table(m as int), *w), f as int);
                let keys = distinct_values(vs);
                &&& r@.len() == keys.len()
                &&& forall|i: int| 0 <= i < r@.len() ==> (#[trigger] r@[i]).0@ == keys[i] && r@[i].1 as int == count_in(vs, keys[i])
            }),
    {
        let rows = &self.tables[m];
        let ghost tv = self.table(m as int);
        let mut vals: Vec<Value> = Vec::new();
        let mut k: usize = 0;
        proof {
            assert(views(vals@) =~= field_values(selected(tv.subrange(0, 0), *w), f as int));
        }
        while k < rows.len()
            invariant
                0 <= k <= rows@.len(),
                tv == rows_view(rows@),
                tv == self.table(m as int),
                self.wf(g),
                m < g.models@.len(),
                f < g.models@[m as int].fields@.len(),
                *rows == self.tables@[m as int],
                views(vals@) == field_values(selected(tv.subrange(0, k as int), *w), f as int),
            decreases rows@.len() - k,
        {
            proof {
                assert(tv.subrange(0, k + 1).drop_last() =~= tv.subrange(0, k as int));
                assert(tv[k as int] == views(rows@[k as int]@));
                assert(self.tables@[m as int]@[k as int]@.len() == g.models@[m as int].fields@.len());
            }
            if w.matches(&rows[k]) {
                let ghost before = views(vals@);
                let c = rows[k][f].deep_clone();
                vals.push(c);
                proof {
                    assert(views(vals@) =~= before.push(tv[k as int][f as int]));
                    assert(field_values(selected(tv.subrange(0, k + 1), *w), f as int) =~= field_values(selected(tv.subrange(0, k as int), *w), f as int).push(tv[k as int][f as int]));
                }
            }
            k = k + 1;
        }
        proof {
            assert(tv.subrange(0, k as int) =~= tv);
        }
        let ghost vs = views(vals@);
        let mut out: Vec<(Value, usize)> = Vec::new();
        let mut i: usize = 0;
        while i < vals.len()
            invariant
                0 <= i <= vals@.len(),
                vs == views(vals@),
                out@.len() == distinct_values(vs.subrange(0, i as int)).len(),
                forall|j: int| 0 <= j < out@.len() ==> (#[trigger] out@[j]).0@ == distinct_values(vs.subrange(0, i as int))[j]
                    && out@[j].1 as int == count_in(vs.subrange(0, i as int), distinct_values(vs.subrange(0, i as int))[j]),
                forall|j: int| 0 <= j < out@.len() ==> (#[trigger] out@[j]).1 <= i,
            decreases vals@.len() - i,
        {
            let ghost pre = vs.subrange(0, i as int);
            let ghost nxt = vs.subrange(0, i + 1);
            let ghost v = vs[i as int];
            proof {
                assert(nxt.drop_last() =~= pre);
                assert(nxt.last() == v);
                assert(vals@[i as int]@ == v);
            }
            let ghost dp = distinct_values(pre);
            let mut j: usize = 0;
            let mut found = false;
            while j < out.len() && !found
                invariant
                    0 <= j <= out@.len(),
                    found ==> j < out@.len() && out@[j as int].0@ == v,
                    !found ==> forall|a: int| 0 <= a < j ==> (#[trigger] out@[a]).0@ != v,
                    vals@[i as int]@ == v,
                    i < vals@.len(),
                decreases out@.len() - j + (if found { 0int } else { 1int }),
            {
                if value_eq(&out[j].0, &vals[i]) {
                    found = true;
                } else {
                    j = j + 1;
                }
            }
            if found {
                proof {
                    assert(dp[j as int] == v);
                    assert(dp.contains(v));
                }
                let ghost ob = out@;
                let (key, n) = out.remove(j);
                proof {
                    assert(key@ == dp[j as int]);
                    assert(n as int == count_in(pre, dp[j as int]));
                    assert(n <= i);
                }
                out.insert(j, (key, n + 1));
                proof {
                    lemma_distinct_no_repeats(pre);
                    assert(out@ =~= ob.update(j as int, out@[j as int]));
                    assert(distinct_values(nxt) == dp);
                    assert forall|a: int| 0 <= a < out@.len() implies (#[trigger] out@[a]).0@ == distinct_values(nxt)[a]
                        && out@[a].1 as int == count_in(nxt, distinct_values(nxt)[a]) by {
                        if a != j {
                            assert(out@[a] == ob[a]);
                            if a < j {
                                assert(dp[a] != dp[j as int]);
                            } else {
                                assert(dp[j as int] != dp[a]);
                            }
                        }
                    }
                }
            } else {
                proof {
                    assert forall|a: int| 0 <= a < dp.len() implies dp[a] != v by {
                        assert(out@[a].0@ == dp[a]);
                    }
                    assert(!dp.contains(v));
                    lemma_distinct_members(pre, v);
                }
                let c = vals[i].deep_clone();
                out.push((c, 1));
                proof {
                    assert(distinct_values(nxt) == dp.push(v));
                }
            }
            i = i + 1;
        }
        proof {
            assert(vs.subrange(0, i as int) =~= vs);
            assert(vs == field_values(selected(tv, *w), f as int));
        }
        out
    }
}

/// Row `k` of a table, when the filter holds of it, is among the selected
/// rows.
proof fn lemma_selected_contains(rows: Seq<Seq<ValueV>>, w: Where, k: int)
    requires
        0 <= k < rows.len(),
        holds(w, rows[k]),
    ensures
        selected_has(rows, w, k),
{
    lemma_selected_prefix(rows, w, k + 1, rows.len() as int);
    assert(rows.subrange(0, k + 1).drop_last() =~= rows.subrange(0, k));
    assert(rows.subrange(0, rows.len() as int) =~= rows);
    let s1 = selected(rows.subrange(0, k + 1), w);
    assert(s1.last() == rows[k]);
    let i = s1.len() - 1;
    assert(s1[i] == rows[k]);
    assert(selected(rows, w)[i] == rows[k]);
}

pub open spec fn selected_has(rows: Seq<Seq<ValueV>>, w: Where, k: int) -> bool {
    exists|i: int| 0 <= i < selected(rows, w).len() && #[trigger] selected(rows, w)[i] == rows[k]
}

/// Selecting from a longer prefix keeps what a shorter prefix selected.
proof fn lemma_selected_prefix(rows: Seq<Seq<ValueV>>, w: Where, a: int, b: int)
    requires
        0 <= a <= b <= rows.len(),
    ensures
        selected(rows.subrange(0, a), w).len() <= selected(rows.subrange(0, b), w).len(),
        forall|i: int| 0 <= i < selected(rows.subrange(0, a), w).len() ==> selected(rows.subrange(0, b), w)[i] == #[trigger] selected(rows.subrange(0, a), w)[i],
    decreases b - a,
{
    if a < b {
        lemma_selected_prefix(rows, w, a, b - 1);
        assert(rows.subrange(0, b).drop_last() =~= rows.subrange(0, b - 1));
    }
}

/// Replacing one row of a collision-free table by a row that collides with
/// none of the others keeps the table collision-free.
proof fn lemma_replace_keeps_unique(fields: Seq<Field>, ot: Seq<Seq<ValueV>>, k: int, sv: Seq<ValueV>)
    requires
        table_unique(fields, ot),
        0 <= k < ot.len(),
        forall|j: int| 0 <= j < ot.len() && j != k ==> !conflict(fields, #[trigger] ot[j], sv),
    ensures
        table_unique(fields, ot.update(k, sv)),
{
    let t = ot.update(k, sv);
    assert forall|a: int, b: int| #![trigger t[a], t[b]] 0 <= a < t.len() && 0 <= b < t.len() && a != b implies !conflict(fields, t[a], t[b]) by {
        if a != k && b != k {
            assert(t[a] == ot[a] && t[b] == ot[b]);
        } else if a != k {
            assert(t[a] == ot[a]);
            lemma_conflict_symmetric(fields, sv, t[a]);
        } else {
            assert(t[b] == ot[b]);
            assert(!conflict(fields, ot[b], sv));
            lemma_conflict_symmetric(fields, sv, t[b]);
        }
    }
}

/// Collision does not depend on the order of the two rows.
pub proof fn lemma_conflict_symmetric(fields: Seq<Field>, r1: Seq<ValueV>, r2: Seq<ValueV>)
    ensures
        conflict(fields, r1, r2) == conflict(fields, r2, r1),
{
    if primary_conflict(fields, r1, r2) {
        assert(primary_conflict(fields, r2, r1));
    }
    if primary_conflict(fields, r2, r1) {
        assert(primary_conflict(fields, r1, r2));
    }
    if exists|i: int| 0 <= i < fields.len() && #[trigger] single_conflict(fields, r1, r2, i) {
        let i = choose|i: int| 0 <= i < fields.len() && #[trigger] single_conflict(fields, r1, r2, i);
        assert(single_conflict(fields, r2, r1, i));
    }
    if exists|i: int| 0 <= i < fields.len() && #[trigger] single_conflict(fields, r2, r1, i) {
        let i = choose|i: int| 0 <= i < fields.len() && #[trigger] single_conflict(fields, r2, r1, i);
        assert(single_conflict(fields, r1, r2, i));
    }
    if exists|i: int| 0 <= i < fields.len() && #[trigger] compound_conflict(fields, r1, r2, i) {
        let i = choose|i: int| 0 <= i < fields.len() && #[trigger] compound_conflict(fields, r1, r2, i);
        assert(compound_conflict(fields, r2, r1, i));
    }
    if exists|i: int| 0 <= i < fields.len() && #[trigger] compound_conflict(fields, r2, r1, i) {
        let i = choose|i: int| 0 <= i < fields.len() && #[trigger] compound_conflict(fields, r2, r1, i);
        assert(compound_conflict(fields, r1, r2, i));
    }
}

/// The position of the first field called `name`.
pub fn first_field(fields: &Vec<Field>, name: &str) -> (r: Option<usize>)
    ensures
        match first_pos(fields@, name@, 0) {
            Some(p) => r matches Some(q) && q as int == p && 0 <= p < fields@.len(),
            None => r is None,
        },
{
    let mut i: usize = 0;
    while i < fields.len()
        invariant
            0 <= i <= fields.len(),
            first_pos(fields@, name@, 0) == first_pos(fields@, name@, i as int),
        decreases fields.len() - i,
    {
        if str_eq(fields[i].name.as_str(), name) {
            return Some(i);
        }
        i = i + 1;
    }
    None
}

/// In a table where no two rows collide on a unique index, a filter that
/// names one unique index and holds the (non-null) values of row `k` in it
/// matches row `k` and no other row.
pub proof fn lemma_unique_filter_finds_row(
    fields: Seq<Field>,
    rows: Seq<Seq<ValueV>>,
    k: int,
    pos: Seq<int>,
    filter: Seq<(String, Value)>,
)
    requires
        table_unique(fields, rows),
        0 <= k < rows.len(),
        forall|r: int| 0 <= r < rows.len() ==> (#[trigger] rows[r]).len() == fields.len(),
        pos.len() == filter.len(),
        forall|e: int| 0 <= e < pos.len() ==> 0 <= #[trigger] pos[e] < fields.len(),
        is_unique_key_set(fields, int_set(pos)),
        row_matches(pos, filter, rows[k]),
        forall|e: int| 0 <= e < pos.len() ==> !(rows[k][#[trigger] pos[e]] is Null),
    ensures
        forall|j: int| 0 <= j < rows.len() && row_matches(pos, filter, #[trigger] rows[j]) ==> j == k,
{
    assert forall|j: int| 0 <= j < rows.len() && row_matches(pos, filter, #[trigger] rows[j]) implies j == k by {
        if j != k {
            let s = int_set(pos);
            assert forall|x: int| #[trigger] s.contains(x) implies agree(rows[j], rows[k], x) by {
                let e = choose|e: int| 0 <= e < pos.len() && pos[e] == x;
                assert(rows[j][pos[e]] == filter[e].1@);
                assert(rows[k][pos[e]] == filter[e].1@);
            }
            if has_primary(fields) && s == Set::new(|q: int| 0 <= q < fields.len() && fields[q].primary) {
                assert forall|q: int| 0 <= q < fields.len() && (#[trigger] fields[q]).primary implies agree(rows[j], rows[k], q) by {
                    assert(s.contains(q));
                }
                assert(primary_conflict(fields, rows[j], rows[k]));
            } else if exists|i: int| 0 <= i < fields.len() && (#[trigger] fields[i]).index is Unique && s == set![i] {
                let i = choose|i: int| 0 <= i < fields.len() && (#[trigger] fields[i]).index is Unique && s == set![i];
                assert(s.contains(i));
                assert(single_conflict(fields, rows[j], rows[k], i));
            } else {
                let i = choose|i: int|
                    0 <= i < fields.len() && (#[trigger] fields[i]).index is CompoundUnique && s == Set::new(
                        |q: int| 0 <= q < fields.len() && same_compound(fields, i, q),
                    );
                assert forall|q: int| 0 <= q < fields.len() && #[trigger] same_compound(fields, i, q) implies agree(rows[j], rows[k], q) by {
                    assert(s.contains(q));
                }
                assert(compound_conflict(fields, rows[j], rows[k], i));
            }
            assert(conflict(fields, rows[j], rows[k]));
        }
    }
}

/// A created row reads back: when `create` has appended `row` to a
/// collision-free table, a filter that names one unique index and holds
/// the row's (non-null) values there matches the new row and no earlier
/// one, so `find_unique` returns the output that `create` returned.
pub proof fn lemma_created_row_reads_back(
    fields: Seq<Field>,
    rows: Seq<Seq<ValueV>>,
    row: Seq<ValueV>,
    pos: Seq<int>,
    filter: Seq<(String, Value)>,
)
    requires
        table_unique(fields, rows.push(row)),
        forall|r: int| 0 <= r < rows.len() ==> (#[trigger] rows[r]).len() == fields.len(),
        row.len() == fields.len(),
        pos.len() == filter.len(),
        forall|e: int| 0 <= e < pos.len() ==> 0 <= #[trigger] pos[e] < fields.len(),
        is_unique_key_set(fields, int_set(pos)),
        row_matches(pos, filter, row),
        forall|e: int| 0 <= e < pos.len() ==> !(row[#[trigger] pos[e]] is Null),
    ensures
        row_matches(pos, filter, rows.push(row)[rows.len() as int]),
        forall|j: int| 0 <= j < rows.len() ==> !row_matches(pos, filter, #[trigger] rows.push(row)[j]),
{
    let all = rows.push(row);
    assert forall|r: int| 0 <= r < all.len() implies (#[trigger] all[r]).len() == fields.len() by {
        if r < rows.len() {
            assert(all[r] == rows[r]);
        }
    }
    lemma_unique_filter_finds_row(fields, all, rows.len() as int, pos, filter);
}

/// A row is selected exactly when it is in the table and the filter holds
/// of it.
pub proof fn lemma_selected_member(rows: Seq<Seq<ValueV>>, w: Where, r: Seq<ValueV>)
    ensures
        selected(rows, w).contains(r) <==> (rows.contains(r) && holds(w, r)),
    decreases rows.len(),
{
    if rows.len() > 0 {
        lemma_selected_member(rows.drop_last(), w, r);
        let prev = selected(rows.drop_last(), w);
        if holds(w, rows.last()) {
            assert(selected(rows, w) == prev.push(rows.last()));
            if prev.push(rows.last()).contains(r) {
                if r != rows.last() {
                    let i = choose|i: int| 0 <= i < prev.push(rows.last()).len() && prev.push(rows.last())[i] == r;
                    assert(prev[i] == r);
                }
            }
            if prev.contains(r) {
                let i = choose|i: int| 0 <= i < prev.len() && prev[i] == r;
                assert(prev.push(rows.last())[i] == r);
            }
            if r == rows.last() {
                assert(prev.push(rows.last())[prev.len() as int] == r);
            }
        }
        if rows.contains(r) {
            let i = choose|i: int| 0 <= i < rows.len() && rows[i] == r;
            if i < rows.len() - 1 {
                assert(rows.drop_last()[i] == r);
            }
        }
        if rows.drop_last().contains(r) {
            let i = choose|i: int| 0 <= i < rows.drop_last().len() && rows.drop_last()[i] == r;
            assert(rows[i] == r);
        }
    }
}

/// What `find_many` selects with `AND` of two filters is what it selects
/// with each of them: a row is among the first exactly when it is among
/// both of the others.
pub proof fn lemma_selected_and(rows: Seq<Seq<ValueV>>, ws: Vec<Where>, w1: Where, w2: Where, r: Seq<ValueV>)
    requires
        ws@ == seq![w1, w2],
    ensures
        selected(rows, Where::And(ws)).contains(r) <==> (selected(rows, w1).contains(r) && selected(
            rows,
            w2,
        ).contains(r)),
{
    lemma_selected_member(rows, Where::And(ws), r);
    lemma_selected_member(rows, w1, r);
    lemma_selected_member(rows, w2, r);
    crate::filter::lemma_and_is_intersection(ws, w1, w2, r);
}

} // verus!
