use vstd::prelude::*;
use crate::coerce::views;
use crate::text::has_prefix;
use crate::url::starts_with;
use crate::value::{value_eq, Value, ValueV};

verus! {

/// One operator applied to a single field.
pub enum Cond {
    Equals(Value),
    Not(Value),
    In(Vec<Value>),
    NotIn(Vec<Value>),
    Lt(i128),
    Lte(i128),
    Gt(i128),
    Gte(i128),
    Contains(String),
    StartsWith(String),
    EndsWith(String),
}

/// A filter over the rows of one model. Fields are named by position.
pub enum Where {
    /// Every filter holds (the empty list holds of every row).
    And(Vec<Where>),
    /// Some filter holds (the empty list holds of no row).
    Or(Vec<Where>),
    /// No filter holds.
    Not(Vec<Where>),
    /// Every operator holds of the field.
    Field(usize, Vec<Cond>),
}

pub open spec fn ends_with(s: Seq<char>, p: Seq<char>) -> bool {
    p.len() <= s.len() && s.subrange(s.len() - p.len(), s.len() as int) == p
}

pub open spec fn contains_seq(s: Seq<char>, p: Seq<char>) -> bool {
    exists|k: int| 0 <= k && k + p.len() <= s.len() && #[trigger] s.subrange(k, k + p.len()) == p
}

/// Whether one operator holds of a value. Ordering and text operators hold
/// of values of their own tag only.
pub open spec fn cond_holds(c: Cond, v: ValueV) -> bool {
    match c {
        Cond::Equals(x) => v == x@,
        Cond::Not(x) => v != x@,
        Cond::In(xs) => exists|j: int| 0 <= j < xs@.len() && (#[trigger] xs@[j])@ == v,
        Cond::NotIn(xs) => forall|j: int| 0 <= j < xs@.len() ==> (#[trigger] xs@[j])@ != v,
        Cond::Lt(n) => v matches ValueV::Int(i) && i < n,
        Cond::Lte(n) => v matches ValueV::Int(i) && i <= n,
        Cond::Gt(n) => v matches ValueV::Int(i) && i > n,
        Cond::Gte(n) => v matches ValueV::Int(i) && i >= n,
        Cond::Contains(p) => v matches ValueV::Str(s) && contains_seq(s, p@),
        Cond::StartsWith(p) => v matches ValueV::Str(s) && starts_with(s, p@),
        Cond::EndsWith(p) => v matches ValueV::Str(s) && ends_with(s, p@),
    }
}

/// Whether every operator holds of field `f` of a row.
pub open spec fn field_holds(f: usize, cs: Seq<Cond>, row: Seq<ValueV>) -> bool {
    0 <= f < row.len() && forall|j: int| 0 <= j < cs.len() ==> cond_holds(#[trigger] cs[j], row[f as int])
}

/// Whether a filter holds of a row (the models of its values, by field).
pub open spec fn holds(w: Where, row: Seq<ValueV>) -> bool
    decreases w,
{
    match w {
        Where::Field(f, cs) => field_holds(f, cs@, row),
        Where::And(ws) => forall|i: int| 0 <= i < ws@.len() ==> holds(#[trigger] ws@[i], row),
        Where::Or(ws) => exists|i: int| 0 <= i < ws@.len() && holds(#[trigger] ws@[i], row),
        Where::Not(ws) => forall|i: int| 0 <= i < ws@.len() ==> !holds(#[trigger] ws@[i], row),
    }
}

fn ends_with_exec(s: &str, p: &str) -> (r: bool)
    ensures
        r == ends_with(s@, p@),
{
    let n = s.unicode_len();
    let m = p.unicode_len();
    if m > n {
        return false;
    }
    let tail = s.substring_char(n - m, n);
    let t = String::from_str(tail);
    let q = String::from_str(p);
    t == q
}

fn contains_exec(s: &str, p: &str) -> (r: bool)
    ensures
        r == contains_seq(s@, p@),
{
    let n = s.unicode_len();
    let m = p.unicode_len();
    if m > n {
        proof {
            assert forall|k: int| 0 <= k && k + p@.len() <= s@.len() implies #[trigger] s@.subrange(k, k + p@.len()) != p@ by {}
        }
        return false;
    }
    let q = String::from_str(p);
    let last = n - m;
    let mut k: usize = 0;
    loop
        invariant
            n == s@.len(),
            m == p@.len(),
            m <= n,
            last == n - m,
            0 <= k <= last,
            q@ == p@,
            forall|j: int| 0 <= j < k ==> #[trigger] s@.subrange(j, j + m) != p@,
        decreases last - k,
    {
        let window = String::from_str(s.substring_char(k, k + m));
        if window == q {
            return true;
        }
        if k == last {
            return false;
        }
        k = k + 1;
    }
}

fn member(xs: &Vec<Value>, v: &Value) -> (r: bool)
    ensures
        r == exists|j: int| 0 <= j < xs@.len() && (#[trigger] xs@[j])@ == v@,
{
    let mut j: usize = 0;
    while j < xs.len()
        invariant
            0 <= j <= xs.len(),
            forall|a: int| 0 <= a < j ==> (#[trigger] xs@[a])@ != v@,
        decreases xs.len() - j,
    {
        if value_eq(&xs[j], v) {
            return true;
        }
        j = j + 1;
    }
    false
}

impl Cond {
    pub fn check(&self, v: &Value) -> (r: bool)
        ensures
            r == cond_holds(*self, v@),
    {
        match self {
            Cond::Equals(x) => value_eq(v, x),
            Cond::Not(x) => !value_eq(v, x),
            Cond::In(xs) => member(xs, v),
            Cond::NotIn(xs) => !member(xs, v),
            Cond::Lt(n) => match v {
                Value::Int(i) => *i < *n,
                _ => false,
            },
            Cond::Lte(n) => match v {
                Value::Int(i) => *i <= *n,
                _ => false,
            },
            Cond::Gt(n) => match v {
                Value::Int(i) => *i > *n,
                _ => false,
            },
            Cond::Gte(n) => match v {
                Value::Int(i) => *i >= *n,
                _ => false,
            },
            Cond::Contains(p) => match v {
                Value::Str(s) => contains_exec(s.as_str(), p.as_str()),
                _ => false,
            },
            Cond::StartsWith(p) => match v {
                Value::Str(s) => has_prefix(s.as_str(), p.as_str()),
                _ => false,
            },
            Cond::EndsWith(p) => match v {
                Value::Str(s) => ends_with_exec(s.as_str(), p.as_str()),
                _ => false,
            },
        }
    }
}

impl Where {
    /// Whether the filter holds of a row.
    pub fn matches(&self, row: &Vec<Value>) -> (r: bool)
        ensures
            r == holds(*self, views(row@)),
        decreases self,
    {
        match self {
            Where::Field(f, cs) => {
                if *f >= row.len() {
                    return false;
                }
                proof {
                    assert(views(row@)[*f as int] == row@[*f as int]@);
                }
                let mut j: usize = 0;
                while j < cs.len()
                    invariant
                        0 <= j <= cs.len(),
                        *f < row@.len(),
                        *self == Where::Field(*f, *cs),
                        views(row@)[*f as int] == row@[*f as int]@,
                        forall|a: int| 0 <= a < j ==> cond_holds(#[trigger] cs@[a], row@[*f as int]@),
                    decreases cs.len() - j,
                {
                    if !cs[j].check(&row[*f]) {
                        proof {
                            assert(!cond_holds(cs@[j as int], views(row@)[*f as int]));
                        }
                        return false;
                    }
                    j = j + 1;
                }
                true
            },
            Where::And(ws) => {
                let mut i: usize = 0;
                while i < ws.len()
                    invariant
                        0 <= i <= ws.len(),
                        *self == Where::And(*ws),
                        forall|a: int| 0 <= a < i ==> holds(#[trigger] ws@[a], views(row@)),
                    decreases ws.len() - i,
                {
                    proof {
                        vstd::std_specs::vec::axiom_vec_index_decreases(*ws, i as int);
                        assert(decreases_to!(*self => self->And_0));
                    }
                    if !ws[i].matches(row) {
                        return false;
                    }
                    i = i + 1;
                }
                true
            },
            Where::Or(ws) => {
                let mut i: usize = 0;
                while i < ws.len()
                    invariant
                        0 <= i <= ws.len(),
                        *self == Where::Or(*ws),
                        forall|a: int| 0 <= a < i ==> !holds(#[trigger] ws@[a], views(row@)),
                    decreases ws.len() - i,
                {
                    proof {
                        vstd::std_specs::vec::axiom_vec_index_decreases(*ws, i as int);
                        assert(decreases_to!(*self => self->Or_0));
                    }
                    if ws[i].matches(row) {
                        return true;
                    }
                    i = i + 1;
                }
                false
            },
            Where::Not(ws) => {
                let mut i: usize = 0;
                while i < ws.len()
                    invariant
                        0 <= i <= ws.len(),
                        *self == Where::Not(*ws),
                        forall|a: int| 0 <= a < i ==> !holds(#[trigger] ws@[a], views(row@)),
                    decreases ws.len() - i,
                {
                    proof {
                        vstd::std_specs::vec::axiom_vec_index_decreases(*ws, i as int);
                        assert(decreases_to!(*self => self->Not_0));
                    }
                    if ws[i].matches(row) {
                        return false;
                    }
                    i = i + 1;
                }
                true
            },
        }
    }
}

/// `AND` of two filters holds of exactly the rows of which both hold.
pub proof fn lemma_and_is_intersection(ws: Vec<Where>, w1: Where, w2: Where, row: Seq<ValueV>)
    requires
        ws@ == seq![w1, w2],
    ensures
        holds(Where::And(ws), row) == (holds(w1, row) && holds(w2, row)),
{
    assert(ws@[0] == w1);
    assert(ws@[1] == w2);
    if holds(w1, row) && holds(w2, row) {
        assert forall|i: int| 0 <= i < ws@.len() implies holds(#[trigger] ws@[i], row) by {
            if i == 0 {
                assert(ws@[0] == w1);
            } else {
                assert(ws@[1] == w2);
            }
        }
        assert(holds(Where::And(ws), row));
    }
    if holds(Where::And(ws), row) {
        let w = Where::And(ws);
        assert(decreases_to!(w => w->And_0));
        vstd::std_specs::vec::axiom_vec_index_decreases(ws, 0);
        vstd::std_specs::vec::axiom_vec_index_decreases(ws, 1);
        assert(holds(ws@[0], row));
        assert(holds(ws@[1], row));
    }
}

/// `AND` of no filters holds of every row: it is the unit of `AND`.
pub proof fn lemma_and_unit(ws: Vec<Where>, row: Seq<ValueV>)
    requires
        ws@.len() == 0,
    ensures
        holds(Where::And(ws), row),
{
}

/// `AND` is associative: grouping the first two or the last two of three
/// filters selects the same rows.
pub proof fn lemma_and_associative(
    left: Vec<Where>,
    ab: Vec<Where>,
    right: Vec<Where>,
    bc: Vec<Where>,
    a: Where,
    b: Where,
    c: Where,
    row: Seq<ValueV>,
)
    requires
        ab@ == seq![a, b],
        left@ == seq![Where::And(ab), c],
        bc@ == seq![b, c],
        right@ == seq![a, Where::And(bc)],
    ensures
        holds(Where::And(left), row) == holds(Where::And(right), row),
{
    lemma_and_is_intersection(ab, a, b, row);
    lemma_and_is_intersection(left, Where::And(ab), c, row);
    lemma_and_is_intersection(bc, b, c, row);
    lemma_and_is_intersection(right, a, Where::And(bc), row);
}

/// `AND` holds exactly when each of its filters does.
pub proof fn lemma_and_holds(w: Where, row: Seq<ValueV>)
    requires
        w is And,
    ensures
        holds(w, row) == forall|i: int| 0 <= i < w->And_0@.len() ==> holds(#[trigger] w->And_0@[i], row),
{
    let ws = w->And_0;
    assert(decreases_to!(w => w->And_0));
    assert forall|i: int| 0 <= i < ws@.len() implies decreases_to!(w => #[trigger] ws@[i]) by {
        vstd::std_specs::vec::axiom_vec_index_decreases(ws, i);
    }
}

/// `OR` holds exactly when one of its filters does.
pub proof fn lemma_or_holds(w: Where, row: Seq<ValueV>)
    requires
        w is Or,
    ensures
        holds(w, row) == exists|i: int| 0 <= i < w->Or_0@.len() && holds(#[trigger] w->Or_0@[i], row),
{
    let ws = w->Or_0;
    assert(decreases_to!(w => w->Or_0));
    assert forall|i: int| 0 <= i < ws@.len() implies decreases_to!(w => #[trigger] ws@[i]) by {
        vstd::std_specs::vec::axiom_vec_index_decreases(ws, i);
    }
}

/// `NOT` holds exactly when none of its filters does.
pub proof fn lemma_not_holds(w: Where, row: Seq<ValueV>)
    requires
        w is Not,
    ensures
        holds(w, row) == forall|i: int| 0 <= i < w->Not_0@.len() ==> !holds(#[trigger] w->Not_0@[i], row),
{
    let ws = w->Not_0;
    assert(decreases_to!(w => w->Not_0));
    assert forall|i: int| 0 <= i < ws@.len() implies decreases_to!(w => #[trigger] ws@[i]) by {
        vstd::std_specs::vec::axiom_vec_index_decreases(ws, i);
    }
}

} // verus!
