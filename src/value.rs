use vstd::prelude::*;

verus! {

/// The mathematical model of a [`Value`]: integers are unbounded, strings are
/// character sequences and collections are sequences of models.
pub enum ValueV {
    Null,
    Bool(bool),
    Int(int),
    Str(Seq<char>),
    List(Seq<ValueV>),
    Dict(Seq<(Seq<char>, ValueV)>),
}

/// A dynamically typed value, shaped like a JSON document. `Null` stands for
/// an absent value.
#[derive(Debug, PartialEq)]
pub enum Value {
    Null,
    Bool(bool),
    Int(i128),
    Str(String),
    List(Vec<Value>),
    Dict(Vec<(String, Value)>),
}

impl Value {
    pub open spec fn view(&self) -> ValueV
        decreases self,
    {
        match self {
            Value::Null => ValueV::Null,
            Value::Bool(b) => ValueV::Bool(*b),
            Value::Int(i) => ValueV::Int(*i as int),
            Value::Str(s) => ValueV::Str(s@),
            Value::List(items) => ValueV::List(
                Seq::new(
                    items.len() as nat,
                    |i: int| if 0 <= i < items.len() { items[i].view() } else { ValueV::Null },
                ),
            ),
            Value::Dict(entries) => ValueV::Dict(
                Seq::new(
                    entries.len() as nat,
                    |i: int|
                        if 0 <= i < entries.len() {
                            (entries[i].0@, entries[i].1.view())
                        } else {
                            (Seq::empty(), ValueV::Null)
                        },
                ),
            ),
        }
    }

    /// A deep copy.
    pub fn deep_clone(&self) -> (r: Value)
        ensures
            r@ == self@,
        decreases self,
    {
        match self {
            Value::Null => Value::Null,
            Value::Bool(b) => Value::Bool(*b),
            Value::Int(i) => Value::Int(*i),
            Value::Str(s) => Value::Str(s.clone()),
            Value::List(items) => {
                let mut out: Vec<Value> = Vec::new();
                let mut i: usize = 0;
                while i < items.len()
                    invariant
                        0 <= i <= items.len(),
                        out.len() == i,
                        *self == Value::List(*items),
                        forall|j: int| 0 <= j < i ==> (#[trigger] out[j])@ == items[j]@,
                    decreases items.len() - i,
                {
                    proof {
                        vstd::std_specs::vec::axiom_vec_index_decreases(*items, i as int);
                        assert(decreases_to!(*self => self->List_0));
                    }
                    let c = items[i].deep_clone();
                    out.push(c);
                    i = i + 1;
                }
                let r = Value::List(out);
                proof {
                    assert(r@->List_0 =~= self@->List_0);
                }
                r
            },
            Value::Dict(entries) => {
                let mut out: Vec<(String, Value)> = Vec::new();
                let mut i: usize = 0;
                while i < entries.len()
                    invariant
                        0 <= i <= entries.len(),
                        out.len() == i,
                        *self == Value::Dict(*entries),
                        forall|j: int|
                            0 <= j < i ==> (#[trigger] out[j]).0@ == entries[j].0@ && out[j].1@
                                == entries[j].1@,
                    decreases entries.len() - i,
                {
                    proof {
                        vstd::std_specs::vec::axiom_vec_index_decreases(*entries, i as int);
                        assert(decreases_to!(*self => self->Dict_0));
                    }
                    let c = entries[i].1.deep_clone();
                    out.push((entries[i].0.clone(), c));
                    i = i + 1;
                }
                let r = Value::Dict(out);
                proof {
                    assert(r@->Dict_0 =~= self@->Dict_0);
                }
                r
            },
        }
    }
}

/// Structural equality of two values, decided on their models.
pub fn value_eq(a: &Value, b: &Value) -> (r: bool)
    ensures
        r == (a@ == b@),
    decreases a,
{
    match a {
        Value::Null => match b {
            Value::Null => true,
            _ => false,
        },
        Value::Bool(x) => match b {
            Value::Bool(y) => *x == *y,
            _ => false,
        },
        Value::Int(x) => match b {
            Value::Int(y) => *x == *y,
            _ => false,
        },
        Value::Str(x) => match b {
            Value::Str(y) => *x == *y,
            _ => false,
        },
        Value::List(xs) => match b {
            Value::List(ys) => {
                if xs.len() != ys.len() {
                    proof {
                        assert(a@->List_0.len() != b@->List_0.len());
                    }
                    return false;
                }
                let mut i: usize = 0;
                while i < xs.len()
                    invariant
                        xs.len() == ys.len(),
                        0 <= i <= xs.len(),
                        *a == Value::List(*xs),
                        *b == Value::List(*ys),
                        forall|j: int| 0 <= j < i ==> (#[trigger] xs[j])@ == ys[j]@,
                    decreases xs.len() - i,
                {
                    proof {
                        vstd::std_specs::vec::axiom_vec_index_decreases(*xs, i as int);
                        assert(decreases_to!(*a => a->List_0));
                    }
                    if !value_eq(&xs[i], &ys[i]) {
                        proof {
                            assert(a@->List_0[i as int] != b@->List_0[i as int]);
                        }
                        return false;
                    }
                    i = i + 1;
                }
                proof {
                    assert(a@->List_0 =~= b@->List_0);
                }
                true
            },
            _ => false,
        },
        Value::Dict(xs) => match b {
            Value::Dict(ys) => {
                if xs.len() != ys.len() {
                    proof {
                        assert(a@->Dict_0.len() != b@->Dict_0.len());
                    }
                    return false;
                }
                let mut i: usize = 0;
                while i < xs.len()
                    invariant
                        xs.len() == ys.len(),
                        0 <= i <= xs.len(),
                        *a == Value::Dict(*xs),
                        *b == Value::Dict(*ys),
                        forall|j: int|
                            0 <= j < i ==> (#[trigger] xs[j]).0@ == ys[j].0@ && xs[j].1@ == ys[j].1@,
                    decreases xs.len() - i,
                {
                    proof {
                        vstd::std_specs::vec::axiom_vec_index_decreases(*xs, i as int);
                        assert(decreases_to!(*a => a->Dict_0));
                    }
                    if xs[i].0 != ys[i].0 {
                        proof {
                            assert(a@->Dict_0[i as int] != b@->Dict_0[i as int]);
                        }
                        return false;
                    }
                    if !value_eq(&xs[i].1, &ys[i].1) {
                        proof {
                            assert(a@->Dict_0[i as int] != b@->Dict_0[i as int]);
                        }
                        return false;
                    }
                    i = i + 1;
                }
                proof {
                    assert(a@->Dict_0 =~= b@->Dict_0);
                }
                true
            },
            _ => false,
        },
    }
}

} // verus!
