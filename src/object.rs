use vstd::prelude::*;
use crate::coerce::views;
use crate::decoder::{decode, decode_spec, opt_views, InputMode, InputPlan};
use crate::error::{msg_deleted, ActionError, ErrorKind};
use crate::schema::{model_declared, Graph};
use crate::store::null_row;
use crate::text::{concat, str_eq};
use crate::value::{value_eq, Value, ValueV};

verus! {

/// A row of a model at run time: the values last committed, the values
/// now held, and which of them differ.
pub struct Object {
    pub model: usize,
    pub previous: Vec<Value>,
    pub current: Vec<Value>,
    pub modified: Vec<bool>,
    pub is_new: bool,
    pub is_deleted: bool,
}

pub open spec fn all_null(v: Seq<ValueV>) -> bool {
    forall|i: int| 0 <= i < v.len() ==> (#[trigger] v[i]) is Null
}

impl Object {
    pub open spec fn prev_view(&self) -> Seq<ValueV> {
        views(self.previous@)
    }

    pub open spec fn cur_view(&self) -> Seq<ValueV> {
        views(self.current@)
    }

    /// The positions of the fields marked as modified.
    pub open spec fn modified_set(&self) -> Set<int> {
        Set::new(|f: int| 0 <= f < self.modified@.len() && self.modified@[f])
    }

    /// The positions of the fields whose current value differs from the
    /// committed one.
    pub open spec fn changed_set(&self) -> Set<int> {
        Set::new(|f: int| 0 <= f < self.current@.len() && self.current@[f]@ != self.previous@[f]@)
    }

    /// The state is consistent: one slot per field in each vector, a slot is
    /// marked modified exactly when its value changed, and a new object has
    /// no committed values.
    pub open spec fn wf(&self) -> bool {
        &&& self.previous@.len() == self.current@.len()
        &&& self.modified@.len() == self.current@.len()
        &&& forall|f: int|
            0 <= f < self.current@.len() ==> (#[trigger] self.modified@[f]) == (self.current@[f]@
                != self.previous@[f]@)
        &&& self.is_new ==> all_null(self.prev_view())
    }

    /// A new object of model `model` with `n` fields, all null.
    pub fn new(model: usize, n: usize) -> (r: Object)
        ensures
            r.wf(),
            r.model == model,
            r.current@.len() == n,
            all_null(r.cur_view()),
            r.is_new,
            !r.is_deleted,
            r.modified_set().is_empty(),
    {
        let mut previous: Vec<Value> = Vec::new();
        let mut current: Vec<Value> = Vec::new();
        let mut modified: Vec<bool> = Vec::new();
        let mut i: usize = 0;
        while i < n
            invariant
                0 <= i <= n,
                previous@.len() == i,
                current@.len() == i,
                modified@.len() == i,
                forall|f: int| 0 <= f < i ==> (#[trigger] previous@[f]) is Null,
                forall|f: int| 0 <= f < i ==> (#[trigger] current@[f]) is Null,
                forall|f: int| 0 <= f < i ==> !(#[trigger] modified@[f]),
            decreases n - i,
        {
            previous.push(Value::Null);
            current.push(Value::Null);
            modified.push(false);
            i = i + 1;
        }
        let r = Object { model, previous, current, modified, is_new: true, is_deleted: false };
        proof {
            assert(all_null(r.cur_view()));
            assert(all_null(r.prev_view()));
            assert(r.modified_set() =~= Set::empty());
        }
        r
    }

    /// An object for a stored row: nothing new, nothing modified.
    pub fn from_row(model: usize, row: &Vec<Value>) -> (r: Object)
        ensures
            r.wf(),
            r.model == model,
            r.prev_view() == views(row@),
            r.cur_view() == views(row@),
            !r.is_new,
            !r.is_deleted,
            r.modified_set().is_empty(),
    {
        let mut previous: Vec<Value> = Vec::new();
        let mut current: Vec<Value> = Vec::new();
        let mut modified: Vec<bool> = Vec::new();
        let mut i: usize = 0;
        while i < row.len()
            invariant
                0 <= i <= row.len(),
                previous@.len() == i,
                current@.len() == i,
                modified@.len() == i,
                forall|f: int| 0 <= f < i ==> (#[trigger] previous@[f])@ == row@[f]@,
                forall|f: int| 0 <= f < i ==> (#[trigger] current@[f])@ == row@[f]@,
                forall|f: int| 0 <= f < i ==> !(#[trigger] modified@[f]),
            decreases row.len() - i,
        {
            previous.push(row[i].deep_clone());
            current.push(row[i].deep_clone());
            modified.push(false);
            i = i + 1;
        }
        let r = Object { model, previous, current, modified, is_new: false, is_deleted: false };
        proof {
            assert(r.modified_set() =~= Set::empty());
            assert(r.prev_view() =~= views(row@));
            assert(r.cur_view() =~= views(row@));
        }
        r
    }

    pub fn get(&self, f: usize) -> (r: &Value)
        requires
            f < self.current@.len(),
        ensures
            *r == self.current@[f as int],
    {
        &self.current[f]
    }

    pub fn is_new(&self) -> (r: bool)
        ensures
            r == self.is_new,
    {
        self.is_new
    }

    pub fn is_modified(&self) -> (r: bool)
        requires
            self.wf(),
        ensures
            r == !self.modified_set().is_empty(),
    {
        let mut i: usize = 0;
        while i < self.modified.len()
            invariant
                0 <= i <= self.modified.len(),
                forall|f: int| 0 <= f < i ==> !(#[trigger] self.modified@[f]),
            decreases self.modified.len() - i,
        {
            if self.modified[i] {
                proof {
                    assert(self.modified_set().contains(i as int));
                }
                return true;
            }
            i = i + 1;
        }
        proof {
            assert(self.modified_set() =~= Set::empty());
        }
        false
    }

    /// Assigns `value` to field `f`. A deleted object refuses.
    pub fn set(&mut self, f: usize, value: Value) -> (r: Result<(), ActionError>)
        requires
            old(self).wf(),
            f < old(self).current@.len(),
        ensures
            final(self).wf(),
            old(self).is_deleted ==> r is Err && r->Err_0.kind == ErrorKind::ObjectIsDeleted
                && r->Err_0.message@ == msg_deleted() && *final(self) == *old(self),
            !old(self).is_deleted ==> r is Ok && final(self).cur_view() == old(self).cur_view().update(
                f as int,
                value@,
            ) && final(self).previous == old(self).previous && final(self).is_new == old(self).is_new
                && final(self).model == old(self).model && !final(self).is_deleted,
    {
        if self.is_deleted {
            return Err(ActionError::simple(ErrorKind::ObjectIsDeleted, "Object is deleted."));
        }
        let changed = !value_eq(&value, &self.previous[f]);
        let ghost vv = value@;
        self.current.set(f, value);
        self.modified.set(f, changed);
        proof {
            assert(self.cur_view() =~= old(self).cur_view().update(f as int, vv));
            assert forall|g: int| 0 <= g < self.current@.len() implies (#[trigger] self.modified@[g]) == (
            self.current@[g]@ != self.previous@[g]@) by {
                if g != f {
                    assert(self.modified@[g] == old(self).modified@[g]);
                }
            }
        }
        Ok(())
    }

    /// Assigns every value that a plan carries.
    pub fn apply(&mut self, plan: &InputPlan) -> (r: Result<(), ActionError>)
        requires
            old(self).wf(),
            plan.values@.len() == old(self).current@.len(),
        ensures
            final(self).wf(),
            old(self).is_deleted ==> r is Err && *final(self) == *old(self),
            !old(self).is_deleted ==> r is Ok && final(self).previous == old(self).previous
                && final(self).is_new == old(self).is_new && final(self).model == old(self).model
                && !final(self).is_deleted && final(self).cur_view() == applied(
                old(self).cur_view(),
                opt_views(plan.values@),
            ),
    {
        if self.is_deleted {
            return Err(ActionError::simple(ErrorKind::ObjectIsDeleted, "Object is deleted."));
        }
        let ghost start = self.cur_view();
        let mut i: usize = 0;
        while i < plan.values.len()
            invariant
                0 <= i <= plan.values.len(),
                plan.values@.len() == self.current@.len(),
                self.wf(),
                !self.is_deleted,
                self.previous == old(self).previous,
                self.is_new == old(self).is_new,
                self.model == old(self).model,
                start == old(self).cur_view(),
                self.cur_view() == applied(
                    start,
                    opt_views(plan.values@).subrange(0, i as int) + start.subrange(i as int, start.len() as int).map_values(|x: ValueV| None::<ValueV>),
                ),
            decreases plan.values.len() - i,
        {
            let ghost before = self.cur_view();
            match &plan.values[i] {
                Some(v) => {
                    let c = v.deep_clone();
                    let _ = self.set(i, c);
                },
                None => {},
            }
            proof {
                let a = opt_views(plan.values@).subrange(0, i as int) + start.subrange(i as int, start.len() as int).map_values(|x: ValueV| None::<ValueV>);
                let b = opt_views(plan.values@).subrange(0, i + 1) + start.subrange(i + 1, start.len() as int).map_values(|x: ValueV| None::<ValueV>);
                assert(self.cur_view() =~= applied(start, b));
            }
            i = i + 1;
        }
        proof {
            assert(opt_views(plan.values@).subrange(0, i as int) + start.subrange(i as int, start.len() as int).map_values(|x: ValueV| None::<ValueV>) =~= opt_views(plan.values@));
        }
        Ok(())
    }

    /// Records a successful save: the current values become the committed
    /// ones and nothing is modified any more.
    pub fn commit(&mut self)
        requires
            old(self).wf(),
        ensures
            final(self).wf(),
            final(self).prev_view() == old(self).cur_view(),
            final(self).cur_view() == old(self).cur_view(),
            !final(self).is_new,
            final(self).is_deleted == old(self).is_deleted,
            final(self).model == old(self).model,
            final(self).modified_set().is_empty(),
    {
        let mut previous: Vec<Value> = Vec::new();
        let mut modified: Vec<bool> = Vec::new();
        let mut i: usize = 0;
        while i < self.current.len()
            invariant
                0 <= i <= self.current.len(),
                previous@.len() == i,
                modified@.len() == i,
                forall|f: int| 0 <= f < i ==> (#[trigger] previous@[f])@ == self.current@[f]@,
                forall|f: int| 0 <= f < i ==> !(#[trigger] modified@[f]),
            decreases self.current.len() - i,
        {
            previous.push(self.current[i].deep_clone());
            modified.push(false);
            i = i + 1;
        }
        self.previous = previous;
        self.modified = modified;
        self.is_new = false;
        proof {
            assert(self.prev_view() =~= self.cur_view());
            assert(self.modified_set() =~= Set::empty());
        }
    }

    /// Marks the object deleted; from then on it refuses assignments.
    pub fn mark_deleted(&mut self)
        requires
            old(self).wf(),
        ensures
            final(self).wf(),
            final(self).is_deleted,
            final(self).cur_view() == old(self).cur_view(),
            final(self).model == old(self).model,
    {
        self.is_deleted = true;
    }

    /// A copy of the current values.
    pub fn row(&self) -> (r: Vec<Value>)
        ensures
            views(r@) == self.cur_view(),
    {
        let mut out: Vec<Value> = Vec::new();
        let mut i: usize = 0;
        while i < self.current.len()
            invariant
                0 <= i <= self.current.len(),
                out@.len() == i,
                forall|f: int| 0 <= f < i ==> (#[trigger] out@[f])@ == self.current@[f]@,
            decreases self.current.len() - i,
        {
            out.push(self.current[i].deep_clone());
            i = i + 1;
        }
        proof {
            assert(views(out@) =~= self.cur_view());
        }
        out
    }
}

/// Values after a plan: each slot that the plan fills takes its value.
pub open spec fn applied(cur: Seq<ValueV>, plan: Seq<Option<ValueV>>) -> Seq<ValueV> {
    Seq::new(
        cur.len(),
        |i: int|
            if 0 <= i < plan.len() && plan[i] is Some {
                plan[i]->0
            } else {
                cur[i]
            },
    )
}

/// At every consistent state, the fields marked as modified are exactly
/// those whose current value differs from the committed one.
pub proof fn lemma_modified_is_changed(o: Object)
    requires
        o.wf(),
    ensures
        o.modified_set() == o.changed_set(),
{
    assert(o.modified_set() =~= o.changed_set());
}

impl Graph {
    /// The position of the model called `name`.
    pub fn model_index(&self, name: &str) -> (r: Option<usize>)
        ensures
            match r {
                Some(k) => k < self.models@.len() && self.models@[k as int].name@ == name@,
                None => !model_declared(self.models@, name@),
            },
    {
        let mut k: usize = 0;
        while k < self.models.len()
            invariant
                0 <= k <= self.models@.len(),
                forall|j: int| 0 <= j < k ==> (#[trigger] self.models@[j]).name@ != name@,
            decreases self.models@.len() - k,
        {
            if str_eq(self.models[k].name.as_str(), name) {
                return Some(k);
            }
            k = k + 1;
        }
        None
    }

    /// A new object of the model called `model`, with every field null.
    pub fn new_object(&self, model: &str) -> (r: Result<Object, ActionError>)
        ensures
            match r {
                Ok(o) => o.wf() && o.is_new && !o.is_deleted && o.model < self.models@.len()
                    && self.models@[o.model as int].name@ == model@ && o.current@.len()
                    == self.models@[o.model as int].fields@.len() && all_null(o.cur_view()),
                Err(e) => e.kind == ErrorKind::InvalidOperation && !model_declared(self.models@, model@),
            },
    {
        match self.model_index(model) {
            Some(k) => Ok(Object::new(k, self.models[k].fields.len())),
            None => {
                let a = concat("Model with name '", model);
                let message = concat(a.as_str(), "' is not defined.");
                Err(ActionError { kind: ErrorKind::InvalidOperation, message, errors: Vec::new() })
            },
        }
    }

    /// A new object of the model called `model` holding what a create input
    /// assigns; the input is decoded as [`decode`] says.
    pub fn create_object(&self, model: &str, initial: &Vec<(String, Value)>) -> (r: Result<Object, ActionError>)
        ensures
            match r {
                Ok(o) => o.wf() && o.is_new && o.model < self.models@.len()
                    && self.models@[o.model as int].name@ == model@ && exists|vals: Seq<Option<ValueV>>|
                    decode_spec(self.models@[o.model as int].fields@, initial@, InputMode::Create, self.enums@)
                        == Ok::<Seq<Option<ValueV>>, (ErrorKind, Seq<(Seq<char>, Seq<char>)>)>(vals)
                        && #[trigger] applied(null_row(o.current@.len()), vals) == o.cur_view(),
                Err(e) => !model_declared(self.models@, model@) || exists|k: int|
                    0 <= k < self.models@.len() && self.models@[k].name@ == model@ && (#[trigger] decode_spec(
                        self.models@[k].fields@,
                        initial@,
                        InputMode::Create,
                        self.enums@,
                    )) is Err,
            },
    {
        let mut obj = match self.new_object(model) {
            Ok(o) => o,
            Err(e) => return Err(e),
        };
        let m = &self.models[obj.model];
        let plan = match decode(m, &self.enums, initial, InputMode::Create) {
            Ok(p) => p,
            Err(e) => return Err(e),
        };
        let ghost start = obj.cur_view();
        proof {
            assert(opt_views(plan.values@).len() == plan.values@.len());
            assert(obj.cur_view().len() == obj.current@.len());
            assert(start =~= null_row(obj.current@.len()));
        }
        let _ = obj.apply(&plan);
        Ok(obj)
    }
}

} // verus!
