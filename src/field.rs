use vstd::prelude::*;
use crate::value::{Value, ValueV};

verus! {

/// The declared type of a field.
pub enum FieldType {
    Undefined,
    ObjectId,
    Bool,
    I8,
    I16,
    I32,
    I64,
    I128,
    U8,
    U16,
    U32,
    U64,
    U128,
    F32,
    F64,
    Decimal,
    String,
    Date,
    DateTime,
    Enum(String),
    Vec(Box<Field>),
    HashMap(Box<Field>),
    Object(String),
}

impl FieldType {
    /// Types whose values are single scalars (no collection, no object).
    pub open spec fn is_scalar(&self) -> bool {
        !(self is Vec || self is HashMap || self is Object || self is Undefined)
    }

    pub fn scalar(&self) -> (r: bool)
        ensures
            r == self.is_scalar(),
    {
        match self {
            FieldType::Vec(_) | FieldType::HashMap(_) | FieldType::Object(_) | FieldType::Undefined => false,
            _ => true,
        }
    }
}

#[derive(PartialEq, Eq, Structural, Clone, Copy, Debug)]
pub enum Availability {
    Optional,
    Required,
}

pub enum Store {
    Embedded,
    LocalKey,
    ForeignKey(String),
    Temp,
    Calculated,
}

#[derive(PartialEq, Eq, Structural, Clone, Copy, Debug)]
pub enum ReadRule {
    Read,
    NoRead,
}

#[derive(PartialEq, Eq, Structural, Clone, Copy, Debug)]
pub enum WriteRule {
    Write,
    NoWrite,
    WriteOnce,
    WriteOnCreate,
    WriteNonNull,
}

pub enum FieldIndex {
    NoIndex,
    Index,
    Unique,
    CompoundIndex(String),
    CompoundUnique(String),
}

#[derive(PartialEq, Eq, Structural, Clone, Copy, Debug)]
pub enum QueryAbility {
    Queryable,
    Unqueryable,
}

#[derive(PartialEq, Eq, Structural, Clone, Copy, Debug)]
pub enum ObjectAssignment {
    Reference,
    Copy,
}

/// One step of a pipeline.
pub enum Transformer {
    /// Appends a suffix to a string value.
    StrAppend(String),
    /// Puts a prefix before a string value.
    StrPrepend(String),
}

/// The model of one step: `None` when the step rejects its input.
pub open spec fn transform(t: Transformer, v: ValueV) -> Option<ValueV> {
    match v {
        ValueV::Str(s) => match t {
            Transformer::StrAppend(x) => Some(ValueV::Str(s + x@)),
            Transformer::StrPrepend(x) => Some(ValueV::Str(x@ + s)),
        },
        _ => None,
    }
}

/// The model of a whole pipeline: the steps applied from first to last,
/// stopping at the first one that rejects.
pub open spec fn run_pipeline(items: Seq<Transformer>, v: ValueV) -> Option<ValueV>
    decreases items.len(),
{
    if items.len() == 0 {
        Some(v)
    } else {
        match run_pipeline(items.drop_last(), v) {
            Some(w) => transform(items.last(), w),
            None => None,
        }
    }
}

/// An ordered sequence of transformers.
pub struct Pipeline {
    pub items: Vec<Transformer>,
}

impl Pipeline {
    pub fn new() -> (r: Pipeline)
        ensures
            r.items@.len() == 0,
    {
        Pipeline { items: Vec::new() }
    }

    pub fn str_append(&mut self, suffix: &str)
        ensures
            final(self).items@.len() == old(self).items@.len() + 1,
            final(self).items@.drop_last() == old(self).items@,
            final(self).items@.last() matches Transformer::StrAppend(x) && x@ == suffix@,
    {
        self.items.push(Transformer::StrAppend(String::from_str(suffix)));
    }

    pub fn str_prepend(&mut self, prefix: &str)
        ensures
            final(self).items@.len() == old(self).items@.len() + 1,
            final(self).items@.drop_last() == old(self).items@,
            final(self).items@.last() matches Transformer::StrPrepend(x) && x@ == prefix@,
    {
        self.items.push(Transformer::StrPrepend(String::from_str(prefix)));
    }

    /// Adds the steps of `other` after these.
    pub fn extend(&mut self, other: Pipeline)
        ensures
            final(self).items@ == old(self).items@ + other.items@,
    {
        let mut rest = other.items;
        self.items.append(&mut rest);
    }

    pub fn is_empty(&self) -> (r: bool)
        ensures
            r == (self.items@.len() == 0),
    {
        self.items.len() == 0
    }

    /// Runs every step on `value`, in order.
    pub fn process(&self, value: &Value) -> (r: Option<Value>)
        ensures
            match run_pipeline(self.items@, value@) {
                Some(w) => r is Some && r->0@ == w,
                None => r is None,
            },
    {
        let mut cur = value.deep_clone();
        let mut i: usize = 0;
        while i < self.items.len()
            invariant
                0 <= i <= self.items.len(),
                run_pipeline(self.items@.subrange(0, i as int), value@) == Some(cur@),
            decreases self.items.len() - i,
        {
            proof {
                assert(self.items@.subrange(0, i + 1).drop_last() =~= self.items@.subrange(0, i as int));
            }
            let next = match (&self.items[i], &cur) {
                (Transformer::StrAppend(x), Value::Str(s)) => Value::Str(s.clone().concat(x.as_str())),
                (Transformer::StrPrepend(x), Value::Str(s)) => Value::Str(x.clone().concat(s.as_str())),
                _ => {
                    proof {
                        lemma_run_pipeline_stops(self.items@, i as int + 1, value@);
                    }
                    return None;
                },
            };
            cur = next;
            i = i + 1;
        }
        proof {
            assert(self.items@.subrange(0, i as int) =~= self.items@);
        }
        Some(cur)
    }
}

/// Once a step rejects, the whole pipeline rejects.
proof fn lemma_run_pipeline_stops(items: Seq<Transformer>, k: int, v: ValueV)
    requires
        0 < k <= items.len(),
        run_pipeline(items.subrange(0, k), v) is None,
    ensures
        run_pipeline(items, v) is None,
    decreases items.len() - k,
{
    if k < items.len() {
        assert(items.subrange(0, k + 1).drop_last() =~= items.subrange(0, k));
        lemma_run_pipeline_stops(items, k + 1, v);
    } else {
        assert(items.subrange(0, k) =~= items);
    }
}

/// How a default value is produced.
pub enum Argument {
    ValueArgument(Value),
    PipelineArgument(Pipeline),
}

/// A stored slot of a model.
pub struct Field {
    pub name: String,
    pub localized_name: String,
    pub description: String,
    pub field_type: FieldType,
    pub availability: Availability,
    pub store: Store,
    pub primary: bool,
    pub read_rule: ReadRule,
    pub write_rule: WriteRule,
    pub index: FieldIndex,
    pub query_ability: QueryAbility,
    pub object_assignment: ObjectAssignment,
    pub assigned_by_database: bool,
    pub auth_identity: bool,
    pub default: Option<Argument>,
    pub on_set_pipeline: Pipeline,
    pub on_save_pipeline: Pipeline,
    pub on_output_pipeline: Pipeline,
}

impl Field {
    pub open spec fn is_optional(&self) -> bool {
        self.availability == Availability::Optional
    }

    pub open spec fn is_output_key(&self) -> bool {
        self.read_rule != ReadRule::NoRead
    }

    pub open spec fn is_input_key(&self) -> bool {
        self.write_rule != WriteRule::NoWrite
    }

    pub open spec fn is_query_key(&self) -> bool {
        self.query_ability == QueryAbility::Queryable
    }

    pub open spec fn is_sort_key(&self) -> bool {
        self.field_type.is_scalar()
    }

    pub fn optional(&self) -> (r: bool)
        ensures
            r == self.is_optional(),
    {
        self.availability == Availability::Optional
    }
}

} // verus!
