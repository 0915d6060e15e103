use vstd::prelude::*;
use crate::builders::{GraphBuilder, ModelBuilder};
use crate::field::{Argument, Field, FieldIndex, FieldType, QueryAbility, ReadRule, WriteRule};
use crate::value::{Value, ValueV};
use crate::inflect::{table_case, table_case_of};
use crate::text::str_eq;

verus! {

/// A link from one model to another: direct, where `fields` of this model
/// hold the `references` of the other, or through a join model.
pub struct Relation {
    pub name: String,
    pub model: String,
    pub fields: Vec<String>,
    pub references: Vec<String>,
    pub through: Option<String>,
    pub local: Option<String>,
    pub foreign: Option<String>,
    pub is_vec: bool,
    pub optional: bool,
}

/// An enum: its name and its variants in declaration order.
pub struct Enum {
    pub name: String,
    pub values: Vec<String>,
}

/// The character sequences of a list of strings.
pub open spec fn names_of(v: Seq<String>) -> Seq<Seq<char>> {
    v.map_values(|s: String| s@)
}

/// Whether two lists of strings hold the same strings in the same order.
pub fn names_eq(a: &Vec<String>, b: &Vec<String>) -> (r: bool)
    ensures
        r == (names_of(a@) == names_of(b@)),
{
    if a.len() != b.len() {
        proof {
            assert(names_of(a@).len() != names_of(b@).len());
        }
        return false;
    }
    let mut i: usize = 0;
    while i < a.len()
        invariant
            a.len() == b.len(),
            0 <= i <= a.len(),
            forall|j: int| 0 <= j < i ==> (#[trigger] a@[j])@ == b@[j]@,
        decreases a.len() - i,
    {
        if a[i] != b[i] {
            proof {
                assert(names_of(a@)[i as int] != names_of(b@)[i as int]);
            }
            return false;
        }
        i = i + 1;
    }
    proof {
        assert(names_of(a@) =~= names_of(b@));
    }
    true
}

/// The derived key sets of a model.
#[derive(PartialEq, Eq, Structural, Clone, Copy, Debug)]
pub enum KeyKind {
    Output,
    Input,
    Query,
    Sort,
}

pub open spec fn key_holds(f: Field, kind: KeyKind) -> bool {
    match kind {
        KeyKind::Output => f.is_output_key(),
        KeyKind::Input => f.is_input_key(),
        KeyKind::Query => f.is_query_key(),
        KeyKind::Sort => f.is_sort_key(),
    }
}

/// The names of the fields that belong to a key set, in declaration order.
pub open spec fn field_keys(fields: Seq<Field>, kind: KeyKind) -> Seq<Seq<char>>
    decreases fields.len(),
{
    if fields.len() == 0 {
        Seq::empty()
    } else {
        let prev = field_keys(fields.drop_last(), kind);
        if key_holds(fields.last(), kind) {
            prev.push(fields.last().name@)
        } else {
            prev
        }
    }
}

pub open spec fn relation_names(rels: Seq<Relation>) -> Seq<Seq<char>> {
    rels.map_values(|r: Relation| r.name@)
}

fn key_holds_exec(f: &Field, kind: KeyKind) -> (r: bool)
    ensures
        r == key_holds(*f, kind),
{
    match kind {
        KeyKind::Output => f.read_rule != ReadRule::NoRead,
        KeyKind::Input => f.write_rule != WriteRule::NoWrite,
        KeyKind::Query => f.query_ability == QueryAbility::Queryable,
        KeyKind::Sort => f.field_type.scalar(),
    }
}

fn collect_keys(fields: &Vec<Field>, kind: KeyKind) -> (r: Vec<String>)
    ensures
        names_of(r@) == field_keys(fields@, kind),
{
    let mut out: Vec<String> = Vec::new();
    let mut i: usize = 0;
    while i < fields.len()
        invariant
            0 <= i <= fields.len(),
            names_of(out@) == field_keys(fields@.subrange(0, i as int), kind),
        decreases fields.len() - i,
    {
        proof {
            assert(fields@.subrange(0, i + 1).drop_last() =~= fields@.subrange(0, i as int));
        }
        if key_holds_exec(&fields[i], kind) {
            let ghost before = out@;
            out.push(fields[i].name.clone());
            proof {
                assert(names_of(out@) =~= names_of(before).push(fields@[i as int].name@));
            }
        }
        i = i + 1;
    }
    proof {
        assert(fields@.subrange(0, i as int) =~= fields@);
    }
    out
}

fn append_relation_names(out: &mut Vec<String>, rels: &Vec<Relation>)
    ensures
        names_of(final(out)@) == names_of(old(out)@) + relation_names(rels@),
{
    let mut i: usize = 0;
    while i < rels.len()
        invariant
            0 <= i <= rels.len(),
            names_of(out@) == names_of(old(out)@) + relation_names(rels@.subrange(0, i as int)),
        decreases rels.len() - i,
    {
        let ghost before = out@;
        out.push(rels[i].name.clone());
        proof {
            assert(names_of(out@) =~= names_of(before).push(rels@[i as int].name@));
            assert(relation_names(rels@.subrange(0, i + 1)) =~= relation_names(
                rels@.subrange(0, i as int),
            ).push(rels@[i as int].name@));
        }
        i = i + 1;
    }
    proof {
        assert(rels@.subrange(0, i as int) =~= rels@);
    }
}

/// A computed field: its value comes from a getter pipeline, and a setter
/// pipeline takes input for it.
pub struct Property {
    pub name: String,
    pub field_type: FieldType,
    pub availability: crate::field::Availability,
    pub getter: Option<crate::field::Pipeline>,
    pub setter: Option<crate::field::Pipeline>,
}

/// The names of the properties that have a getter (or, with `getter`
/// false, a setter), in declaration order.
pub open spec fn property_names(props: Seq<Property>, getter: bool) -> Seq<Seq<char>>
    decreases props.len(),
{
    if props.len() == 0 {
        Seq::empty()
    } else {
        let prev = property_names(props.drop_last(), getter);
        let p = props.last();
        if (getter && p.getter is Some) || (!getter && p.setter is Some) {
            prev.push(p.name@)
        } else {
            prev
        }
    }
}

fn append_property_names(out: &mut Vec<String>, props: &Vec<Property>, getter: bool)
    ensures
        names_of(final(out)@) == names_of(old(out)@) + property_names(props@, getter),
{
    let mut i: usize = 0;
    proof {
        assert(props@.subrange(0, 0) =~= Seq::<Property>::empty());
        assert(names_of(out@) =~= names_of(old(out)@) + Seq::<Seq<char>>::empty());
    }
    while i < props.len()
        invariant
            0 <= i <= props@.len(),
            names_of(out@) == names_of(old(out)@) + property_names(props@.subrange(0, i as int), getter),
        decreases props@.len() - i,
    {
        proof {
            assert(props@.subrange(0, i + 1).drop_last() =~= props@.subrange(0, i as int));
        }
        let p = &props[i];
        let has = if getter { p.getter.is_some() } else { p.setter.is_some() };
        if has {
            let ghost before = names_of(out@);
            out.push(p.name.clone());
            proof {
                assert(names_of(out@) =~= before.push(p.name@));
            }
        }
        i = i + 1;
    }
    proof {
        assert(props@.subrange(0, i as int) =~= props@);
    }
}

/// A finished model: its declaration plus the key sets derived from it.
pub struct Model {
    pub name: String,
    pub localized_name: String,
    pub description: String,
    pub identity: bool,
    pub url_segment_name: String,
    pub fields: Vec<Field>,
    pub relations: Vec<Relation>,
    pub properties: Vec<Property>,
    pub output_keys: Vec<String>,
    pub input_keys: Vec<String>,
    pub query_keys: Vec<String>,
    pub sort_keys: Vec<String>,
}

impl Model {
    /// The key sets hold what the fields, properties and relations say:
    /// output keys are the readable fields and the properties with a
    /// getter, input keys the writable fields, the properties with a setter
    /// and the relations, query keys the queryable fields and the
    /// relations, sort keys the scalar fields.
    pub open spec fn keys_derived(&self) -> bool {
        &&& names_of(self.output_keys@) == field_keys(self.fields@, KeyKind::Output) + property_names(self.properties@, true)
        &&& names_of(self.input_keys@) == field_keys(self.fields@, KeyKind::Input) + property_names(self.properties@, false)
            + relation_names(self.relations@)
        &&& names_of(self.query_keys@) == field_keys(self.fields@, KeyKind::Query) + relation_names(
            self.relations@,
        )
        &&& names_of(self.sort_keys@) == field_keys(self.fields@, KeyKind::Sort)
    }

    /// This model is what `mb` declares.
    pub open spec fn built_from(&self, mb: ModelBuilder) -> bool {
        &&& self.name == mb.name
        &&& self.localized_name == mb.localized_name
        &&& self.description == mb.description
        &&& self.identity == mb.identity
        &&& self.fields == mb.fields
        &&& self.relations == mb.relations
        &&& self.properties == mb.properties
        &&& match mb.url_segment_name {
            Some(s) => self.url_segment_name@ == s@,
            None => self.url_segment_name@ == table_case_of(mb.name@),
        }
        &&& self.keys_derived()
    }

    pub fn build(mb: ModelBuilder) -> (r: Model)
        ensures
            r.built_from(mb),
    {
        let mut output_keys = collect_keys(&mb.fields, KeyKind::Output);
        append_property_names(&mut output_keys, &mb.properties, true);
        let mut input_keys = collect_keys(&mb.fields, KeyKind::Input);
        append_property_names(&mut input_keys, &mb.properties, false);
        append_relation_names(&mut input_keys, &mb.relations);
        let mut query_keys = collect_keys(&mb.fields, KeyKind::Query);
        append_relation_names(&mut query_keys, &mb.relations);
        let sort_keys = collect_keys(&mb.fields, KeyKind::Sort);
        let url_segment_name = match &mb.url_segment_name {
            Some(s) => s.clone(),
            None => table_case(mb.name.as_str()),
        };
        Model {
            name: mb.name,
            localized_name: mb.localized_name,
            description: mb.description,
            identity: mb.identity,
            url_segment_name,
            fields: mb.fields,
            relations: mb.relations,
            properties: mb.properties,
            output_keys,
            input_keys,
            query_keys,
            sort_keys,
        }
    }

    /// Whether some field of the model is called `name`.
    pub open spec fn has_field(&self, name: Seq<char>) -> bool {
        exists|i: int| 0 <= i < self.fields@.len() && (#[trigger] self.fields@[i]).name@ == name
    }

    /// The position of the first field called `name`.
    pub fn field_index(&self, name: &str) -> (r: Option<usize>)
        ensures
            match r {
                Some(i) => i < self.fields@.len() && self.fields@[i as int].name@ == name@
                    && forall|j: int| 0 <= j < i ==> (#[trigger] self.fields@[j]).name@ != name@,
                None => !self.has_field(name@),
            },
    {
        let mut i: usize = 0;
        while i < self.fields.len()
            invariant
                0 <= i <= self.fields.len(),
                forall|j: int| 0 <= j < i ==> (#[trigger] self.fields@[j]).name@ != name@,
            decreases self.fields.len() - i,
        {
            if str_eq(self.fields[i].name.as_str(), name) {
                return Some(i);
            }
            i = i + 1;
        }
        None
    }

    pub fn field(&self, name: &str) -> (r: Option<&Field>)
        ensures
            match r {
                Some(f) => exists|i: int|
                    0 <= i < self.fields@.len() && self.fields@[i] == *f && f.name@ == name@,
                None => !self.has_field(name@),
            },
    {
        match self.field_index(name) {
            Some(i) => Some(&self.fields[i]),
            None => None,
        }
    }

    pub fn relation(&self, name: &str) -> (r: Option<&Relation>)
        ensures
            match r {
                Some(rel) => exists|i: int|
                    0 <= i < self.relations@.len() && self.relations@[i] == *rel && rel.name@
                        == name@ && forall|j: int| 0 <= j < i ==> (#[trigger] self.relations@[j]).name@ != name@,
                None => forall|i: int|
                    0 <= i < self.relations@.len() ==> (#[trigger] self.relations@[i]).name@
                        != name@,
            },
    {
        let mut i: usize = 0;
        while i < self.relations.len()
            invariant
                0 <= i <= self.relations.len(),
                forall|j: int| 0 <= j < i ==> (#[trigger] self.relations@[j]).name@ != name@,
            decreases self.relations.len() - i,
        {
            if str_eq(self.relations[i].name.as_str(), name) {
                proof {
                    assert(self.relations@[i as int].name@ == name@);
                }
                return Some(&self.relations[i]);
            }
            i = i + 1;
        }
        None
    }

    /// Whether some field is part of the primary index.
    pub open spec fn has_primary(&self) -> bool {
        exists|i: int| 0 <= i < self.fields@.len() && (#[trigger] self.fields@[i]).primary
    }

    fn primary_declared(&self) -> (r: bool)
        ensures
            r == self.has_primary(),
    {
        let mut i: usize = 0;
        while i < self.fields.len()
            invariant
                0 <= i <= self.fields.len(),
                forall|j: int| 0 <= j < i ==> !(#[trigger] self.fields@[j]).primary,
            decreases self.fields.len() - i,
        {
            if self.fields[i].primary {
                return true;
            }
            i = i + 1;
        }
        false
    }
}

/// The reasons a set of declarations does not make a schema.
#[derive(PartialEq, Eq, Structural, Clone, Copy, Debug)]
pub enum SchemaErrorKind {
    /// Two models share a name.
    Redefinition,
    /// Two models share a URL segment.
    DuplicateUrlSegment,
    /// A model declares no primary field.
    MissingPrimaryIndex,
    /// A field names an enum that is not declared.
    UnknownEnum,
    /// A relation names a model that is not declared.
    DanglingRelation,
    /// A direct relation has not as many fields as references.
    RelationArityMismatch,
    /// Two enums share a name.
    EnumRedefinition,
    /// An optional list field has a non-empty default.
    IllegalDefault,
    /// A unique index covers a field that is not scalar.
    InvalidUniqueKey,
    /// A direct relation pairs a field and a reference that are missing
    /// or of different types.
    RelationTypeMismatch,
}

pub struct SchemaError {
    pub kind: SchemaErrorKind,
    /// The model in which the fault was found.
    pub model: String,
}

pub open spec fn model_names_distinct(models: Seq<Model>) -> bool {
    forall|i: int, j: int|
        #![trigger models[i], models[j]]
        0 <= i < j < models.len() ==> models[i].name@ != models[j].name@
}

pub open spec fn url_segments_distinct(models: Seq<Model>) -> bool {
    forall|i: int, j: int|
        #![trigger models[i], models[j]]
        0 <= i < j < models.len() ==> models[i].url_segment_name@ != models[j].url_segment_name@
}

pub open spec fn primaries_declared(models: Seq<Model>) -> bool {
    forall|i: int| 0 <= i < models.len() ==> (#[trigger] models[i]).has_primary()
}

pub open spec fn enum_declared(enums: Seq<Enum>, name: Seq<char>) -> bool {
    exists|k: int| 0 <= k < enums.len() && (#[trigger] enums[k]).name@ == name
}

pub open spec fn model_declared(models: Seq<Model>, name: Seq<char>) -> bool {
    exists|k: int| 0 <= k < models.len() && (#[trigger] models[k]).name@ == name
}

/// Every enum-typed field names a declared enum.
pub open spec fn enums_resolve(models: Seq<Model>, enums: Seq<Enum>) -> bool {
    forall|i: int, f: int|
        #![trigger models[i].fields@[f]]
        0 <= i < models.len() && 0 <= f < models[i].fields@.len() ==> match models[i].fields@[f].field_type {
            FieldType::Enum(e) => enum_declared(enums, e@),
            _ => true,
        }
}

/// Every relation names a declared model, and so does its join model.
pub open spec fn relations_resolve(models: Seq<Model>) -> bool {
    forall|i: int, r: int|
        #![trigger models[i].relations@[r]]
        0 <= i < models.len() && 0 <= r < models[i].relations@.len() ==> {
            let rel = models[i].relations@[r];
            &&& model_declared(models, rel.model@)
            &&& match rel.through {
                Some(t) => model_declared(models, t@),
                None => true,
            }
        }
}

/// Every direct relation pairs each field with one reference.
pub open spec fn relation_arities_match(models: Seq<Model>) -> bool {
    forall|i: int, r: int|
        #![trigger models[i].relations@[r]]
        0 <= i < models.len() && 0 <= r < models[i].relations@.len() ==> {
            let rel = models[i].relations@[r];
            rel.through is None ==> rel.fields@.len() == rel.references@.len()
        }
}

/// The faults checked first: names, segments, primary keys, references.
pub open spec fn schema_valid_base(models: Seq<Model>, enums: Seq<Enum>) -> bool {
    &&& model_names_distinct(models)
    &&& url_segments_distinct(models)
    &&& primaries_declared(models)
    &&& enums_resolve(models, enums)
    &&& relations_resolve(models)
    &&& relation_arities_match(models)
}

pub open spec fn schema_valid(models: Seq<Model>, enums: Seq<Enum>) -> bool {
    &&& model_names_distinct(models)
    &&& url_segments_distinct(models)
    &&& primaries_declared(models)
    &&& enums_resolve(models, enums)
    &&& relations_resolve(models)
    &&& relation_arities_match(models)
    &&& enum_names_distinct(enums)
    &&& defaults_legal(models)
    &&& unique_keys_scalar(models)
    &&& relation_types_match(models)
}

fn find_enum<'a>(enums: &'a Vec<Enum>, name: &str) -> (r: Option<&'a Enum>)
    ensures
        match r {
            Some(e) => exists|k: int| 0 <= k < enums@.len() && enums@[k] == *e && e.name@ == name@,
            None => !enum_declared(enums@, name@),
        },
{
    let mut k: usize = 0;
    while k < enums.len()
        invariant
            0 <= k <= enums.len(),
            forall|j: int| 0 <= j < k ==> (#[trigger] enums@[j]).name@ != name@,
        decreases enums.len() - k,
    {
        if str_eq(enums[k].name.as_str(), name) {
            return Some(&enums[k]);
        }
        k = k + 1;
    }
    None
}

fn find_model<'a>(models: &'a Vec<Model>, name: &str) -> (r: Option<&'a Model>)
    ensures
        match r {
            Some(m) => exists|k: int| 0 <= k < models@.len() && models@[k] == *m && m.name@ == name@,
            None => !model_declared(models@, name@),
        },
{
    let mut k: usize = 0;
    while k < models.len()
        invariant
            0 <= k <= models.len(),
            forall|j: int| 0 <= j < k ==> (#[trigger] models@[j]).name@ != name@,
        decreases models.len() - k,
    {
        if str_eq(models[k].name.as_str(), name) {
            return Some(&models[k]);
        }
        k = k + 1;
    }
    None
}

fn check_distinct(models: &Vec<Model>) -> (r: Option<(SchemaErrorKind, usize)>)
    ensures
        match r {
            None => model_names_distinct(models@) && url_segments_distinct(models@),
            Some((kind, i)) => i < models@.len() && match kind {
                SchemaErrorKind::Redefinition => !model_names_distinct(models@),
                SchemaErrorKind::DuplicateUrlSegment => !url_segments_distinct(models@),
                _ => false,
            },
        },
{
    let mut j: usize = 0;
    while j < models.len()
        invariant
            0 <= j <= models.len(),
            forall|a: int, b: int|
                #![trigger models@[a], models@[b]]
                0 <= a < b < j ==> models@[a].name@ != models@[b].name@
                    && models@[a].url_segment_name@ != models@[b].url_segment_name@,
        decreases models.len() - j,
    {
        let mut i: usize = 0;
        while i < j
            invariant
                0 <= i <= j < models.len(),
                forall|a: int| 0 <= a < i ==> (#[trigger] models@[a]).name@ != models@[j as int].name@
                    && models@[a].url_segment_name@ != models@[j as int].url_segment_name@,
            decreases j - i,
        {
            if models[i].name == models[j].name {
                proof {
                    assert(models@[i as int].name@ == models@[j as int].name@);
                }
                return Some((SchemaErrorKind::Redefinition, j));
            }
            if models[i].url_segment_name == models[j].url_segment_name {
                proof {
                    assert(models@[i as int].url_segment_name@ == models@[j as int].url_segment_name@);
                }
                return Some((SchemaErrorKind::DuplicateUrlSegment, j));
            }
            i = i + 1;
        }
        j = j + 1;
    }
    None
}

fn check_model(models: &Vec<Model>, enums: &Vec<Enum>, i: usize) -> (r: Option<SchemaErrorKind>)
    requires
        i < models@.len(),
    ensures
        match r {
            None => {
                &&& models@[i as int].has_primary()
                &&& forall|f: int|
                    0 <= f < models@[i as int].fields@.len() ==> match (
                    #[trigger] models@[i as int].fields@[f]).field_type {
                        FieldType::Enum(e) => enum_declared(enums@, e@),
                        _ => true,
                    }
                &&& forall|r: int|
                    0 <= r < models@[i as int].relations@.len() ==> {
                        let rel = #[trigger] models@[i as int].relations@[r];
                        &&& model_declared(models@, rel.model@)
                        &&& match rel.through {
                            Some(t) => model_declared(models@, t@),
                            None => true,
                        }
                        &&& rel.through is None ==> rel.fields@.len() == rel.references@.len()
                    }
            },
            Some(kind) => match kind {
                SchemaErrorKind::MissingPrimaryIndex => !models@[i as int].has_primary(),
                SchemaErrorKind::UnknownEnum => !enums_resolve(models@, enums@),
                SchemaErrorKind::DanglingRelation => !relations_resolve(models@),
                SchemaErrorKind::RelationArityMismatch => !relation_arities_match(models@),
                _ => false,
            },
        },
{
    let m = &models[i];
    if !m.primary_declared() {
        return Some(SchemaErrorKind::MissingPrimaryIndex);
    }
    let mut f: usize = 0;
    while f < m.fields.len()
        invariant
            0 <= f <= m.fields.len(),
            *m == models@[i as int],
            i < models@.len(),
            forall|g: int|
                0 <= g < f ==> match (#[trigger] m.fields@[g]).field_type {
                    FieldType::Enum(e) => enum_declared(enums@, e@),
                    _ => true,
                },
        decreases m.fields.len() - f,
    {
        match &m.fields[f].field_type {
            FieldType::Enum(e) => {
                if find_enum(enums, e.as_str()).is_none() {
                    proof {
                        assert(models@[i as int].fields@[f as int] == m.fields@[f as int]);
                    }
                    return Some(SchemaErrorKind::UnknownEnum);
                }
            },
            _ => {},
        }
        f = f + 1;
    }
    let mut r: usize = 0;
    while r < m.relations.len()
        invariant
            0 <= r <= m.relations.len(),
            *m == models@[i as int],
            i < models@.len(),
            forall|q: int|
                0 <= q < r ==> {
                    let rel = #[trigger] m.relations@[q];
                    &&& model_declared(models@, rel.model@)
                    &&& match rel.through {
                        Some(t) => model_declared(models@, t@),
                        None => true,
                    }
                    &&& rel.through is None ==> rel.fields@.len() == rel.references@.len()
                },
        decreases m.relations.len() - r,
    {
        let rel = &m.relations[r];
        proof {
            assert(models@[i as int].relations@[r as int] == *rel);
        }
        if find_model(models, rel.model.as_str()).is_none() {
            return Some(SchemaErrorKind::DanglingRelation);
        }
        match &rel.through {
            Some(t) => {
                if find_model(models, t.as_str()).is_none() {
                    return Some(SchemaErrorKind::DanglingRelation);
                }
            },
            None => {
                if rel.fields.len() != rel.references.len() {
                    return Some(SchemaErrorKind::RelationArityMismatch);
                }
            },
        }
        r = r + 1;
    }
    None
}

pub open spec fn enum_names_distinct(enums: Seq<Enum>) -> bool {
    forall|i: int, j: int|
        #![trigger enums[i], enums[j]]
        0 <= i < j < enums.len() ==> enums[i].name@ != enums[j].name@
}

pub open spec fn default_illegal(f: Field) -> bool {
    f.is_optional() && f.field_type is Vec && (f.default matches Some(Argument::ValueArgument(v)) && (v@ matches ValueV::List(items) && items.len() > 0))
}

pub open spec fn unique_key_illegal(f: Field) -> bool {
    (f.index is Unique || f.index is CompoundUnique) && !f.field_type.is_scalar()
}

/// No optional list field has a non-empty default.
pub open spec fn defaults_legal(models: Seq<Model>) -> bool {
    forall|i: int, f: int|
        #![trigger models[i].fields@[f]]
        0 <= i < models.len() && 0 <= f < models[i].fields@.len() ==> !default_illegal(models[i].fields@[f])
}

/// Unique indices cover scalar fields only.
pub open spec fn unique_keys_scalar(models: Seq<Model>) -> bool {
    forall|i: int, f: int|
        #![trigger models[i].fields@[f]]
        0 <= i < models.len() && 0 <= f < models[i].fields@.len() ==> !unique_key_illegal(models[i].fields@[f])
}

/// The position of the first model from `start` on called `name`.
pub open spec fn model_pos(models: Seq<Model>, name: Seq<char>, start: int) -> Option<int>
    decreases models.len() - start,
{
    if start < 0 || start >= models.len() {
        None
    } else if models[start].name@ == name {
        Some(start)
    } else {
        model_pos(models, name, start + 1)
    }
}

/// A number for each kind of field type.
pub open spec fn type_tag(t: FieldType) -> int {
    match t {
        FieldType::Undefined => 0,
        FieldType::ObjectId => 1,
        FieldType::Bool => 2,
        FieldType::I8 => 3,
        FieldType::I16 => 4,
        FieldType::I32 => 5,
        FieldType::I64 => 6,
        FieldType::I128 => 7,
        FieldType::U8 => 8,
        FieldType::U16 => 9,
        FieldType::U32 => 10,
        FieldType::U64 => 11,
        FieldType::U128 => 12,
        FieldType::F32 => 13,
        FieldType::F64 => 14,
        FieldType::Decimal => 15,
        FieldType::String => 16,
        FieldType::Date => 17,
        FieldType::DateTime => 18,
        FieldType::Enum(_) => 19,
        FieldType::Vec(_) => 20,
        FieldType::HashMap(_) => 21,
        FieldType::Object(_) => 22,
    }
}

/// Two scalar types agree: the same kind, and the same enum for enums.
pub open spec fn same_scalar_type(a: FieldType, b: FieldType) -> bool {
    match (a, b) {
        (FieldType::Enum(x), FieldType::Enum(y)) => x@ == y@,
        _ => a.is_scalar() && type_tag(a) == type_tag(b),
    }
}

/// Each field of a direct relation of model `i` and the reference it is
/// paired with are declared fields of the same scalar type.
pub open spec fn relation_pairs_ok(models: Seq<Model>, i: int, rel: Relation) -> bool {
    rel.through is None ==> match model_pos(models, rel.model@, 0) {
        Some(k) => forall|j: int|
            0 <= j < rel.fields@.len() ==> match (
                crate::store::first_pos(models[i].fields@, (#[trigger] rel.fields@[j])@, 0),
                crate::store::first_pos(models[k].fields@, rel.references@[j]@, 0),
            ) {
                (Some(a), Some(b)) => same_scalar_type(models[i].fields@[a].field_type, models[k].fields@[b].field_type),
                _ => false,
            },
        None => true,
    }
}

pub open spec fn relation_types_match(models: Seq<Model>) -> bool {
    forall|i: int, r: int|
        #![trigger models[i].relations@[r]]
        0 <= i < models.len() && 0 <= r < models[i].relations@.len() ==> relation_pairs_ok(models, i, models[i].relations@[r])
}

fn type_tag_exec(t: &FieldType) -> (r: u8)
    ensures
        r as int == type_tag(*t),
{
    match t {
        FieldType::Undefined => 0,
        FieldType::ObjectId => 1,
        FieldType::Bool => 2,
        FieldType::I8 => 3,
        FieldType::I16 => 4,
        FieldType::I32 => 5,
        FieldType::I64 => 6,
        FieldType::I128 => 7,
        FieldType::U8 => 8,
        FieldType::U16 => 9,
        FieldType::U32 => 10,
        FieldType::U64 => 11,
        FieldType::U128 => 12,
        FieldType::F32 => 13,
        FieldType::F64 => 14,
        FieldType::Decimal => 15,
        FieldType::String => 16,
        FieldType::Date => 17,
        FieldType::DateTime => 18,
        FieldType::Enum(_) => 19,
        FieldType::Vec(_) => 20,
        FieldType::HashMap(_) => 21,
        FieldType::Object(_) => 22,
    }
}

fn same_scalar_type_exec(a: &FieldType, b: &FieldType) -> (r: bool)
    ensures
        r == same_scalar_type(*a, *b),
{
    match (a, b) {
        (FieldType::Enum(x), FieldType::Enum(y)) => *x == *y,
        _ => a.scalar() && type_tag_exec(a) == type_tag_exec(b),
    }
}

fn model_position(models: &Vec<Model>, name: &str) -> (r: Option<usize>)
    ensures
        match model_pos(models@, name@, 0) {
            Some(k) => r matches Some(q) && q as int == k && 0 <= k < models@.len(),
            None => r is None,
        },
{
    let mut k: usize = 0;
    while k < models.len()
        invariant
            0 <= k <= models.len(),
            model_pos(models@, name@, 0) == model_pos(models@, name@, k as int),
        decreases models.len() - k,
    {
        if str_eq(models[k].name.as_str(), name) {
            return Some(k);
        }
        k = k + 1;
    }
    None
}

fn check_enums(enums: &Vec<Enum>) -> (r: bool)
    ensures
        r == enum_names_distinct(enums@),
{
    let mut j: usize = 0;
    while j < enums.len()
        invariant
            0 <= j <= enums.len(),
            forall|a: int, b: int| #![trigger enums@[a], enums@[b]] 0 <= a < b < j ==> enums@[a].name@ != enums@[b].name@,
        decreases enums.len() - j,
    {
        let mut i: usize = 0;
        while i < j
            invariant
                0 <= i <= j < enums.len(),
                forall|a: int| 0 <= a < i ==> (#[trigger] enums@[a]).name@ != enums@[j as int].name@,
            decreases j - i,
        {
            if enums[i].name == enums[j].name {
                proof {
                    assert(enums@[i as int].name@ == enums@[j as int].name@);
                }
                return false;
            }
            i = i + 1;
        }
        j = j + 1;
    }
    true
}

/// The field faults of model `i`: an illegal default, then a unique index
/// on a field that is not scalar.
fn check_fields(models: &Vec<Model>, i: usize) -> (r: Option<SchemaErrorKind>)
    requires
        i < models@.len(),
    ensures
        match r {
            None => forall|f: int|
                0 <= f < models@[i as int].fields@.len() ==> !default_illegal(#[trigger] models@[i as int].fields@[f])
                    && !unique_key_illegal(models@[i as int].fields@[f]),
            Some(kind) => match kind {
                SchemaErrorKind::IllegalDefault => !defaults_legal(models@),
                SchemaErrorKind::InvalidUniqueKey => !unique_keys_scalar(models@),
                _ => false,
            },
        },
{
    let m = &models[i];
    let mut f: usize = 0;
    while f < m.fields.len()
        invariant
            0 <= f <= m.fields.len(),
            *m == models@[i as int],
            i < models@.len(),
            forall|g: int| 0 <= g < f ==> !default_illegal(#[trigger] m.fields@[g]) && !unique_key_illegal(m.fields@[g]),
        decreases m.fields.len() - f,
    {
        let fd = &m.fields[f];
        proof {
            assert(models@[i as int].fields@[f as int] == *fd);
        }
        let list_type = match &fd.field_type {
            FieldType::Vec(_) => true,
            _ => false,
        };
        if fd.optional() && list_type {
            match &fd.default {
                Some(Argument::ValueArgument(Value::List(items))) => {
                    if items.len() > 0 {
                        proof {
                            let v = fd.default->0->ValueArgument_0;
                            assert(v@->List_0.len() == items@.len());
                        }
                        return Some(SchemaErrorKind::IllegalDefault);
                    }
                    proof {
                        let v = fd.default->0->ValueArgument_0;
                        assert(v@->List_0.len() == items@.len());
                    }
                },
                _ => {},
            }
        }
        let unique = match &fd.index {
            FieldIndex::Unique | FieldIndex::CompoundUnique(_) => true,
            _ => false,
        };
        if unique && !fd.field_type.scalar() {
            return Some(SchemaErrorKind::InvalidUniqueKey);
        }
        f = f + 1;
    }
    None
}

/// The relation pairs of model `i`; see [`relation_pairs_ok`].
fn check_relation_types(models: &Vec<Model>, i: usize) -> (r: bool)
    requires
        i < models@.len(),
        relation_arities_match(models@),
    ensures
        r == forall|q: int| 0 <= q < models@[i as int].relations@.len() ==> relation_pairs_ok(models@, i as int, #[trigger] models@[i as int].relations@[q]),
{
    let m = &models[i];
    let mut q: usize = 0;
    while q < m.relations.len()
        invariant
            0 <= q <= m.relations.len(),
            *m == models@[i as int],
            i < models@.len(),
            relation_arities_match(models@),
            forall|a: int| 0 <= a < q ==> relation_pairs_ok(models@, i as int, #[trigger] m.relations@[a]),
        decreases m.relations.len() - q,
    {
        let rel = &m.relations[q];
        proof {
            assert(models@[i as int].relations@[q as int] == *rel);
        }
        if rel.through.is_none() {
            match model_position(models, rel.model.as_str()) {
                Some(k) => {
                    let target = &models[k];
                    let mut j: usize = 0;
                    while j < rel.fields.len()
                        invariant
                            0 <= j <= rel.fields@.len(),
                            rel.fields@.len() == rel.references@.len(),
                            i < models@.len(),
                            *m == models@[i as int],
                            *target == models@[k as int],
                            k < models@.len(),
                            q < models@[i as int].relations@.len(),
                            models@[i as int].relations@[q as int] == *rel,
                            rel.through is None,
                            model_pos(models@, rel.model@, 0) == Some(k as int),
                            forall|c: int| 0 <= c < j ==> match (
                                crate::store::first_pos(models@[i as int].fields@, (#[trigger] rel.fields@[c])@, 0),
                                crate::store::first_pos(models@[k as int].fields@, rel.references@[c]@, 0),
                            ) {
                                (Some(a), Some(b)) => same_scalar_type(models@[i as int].fields@[a].field_type, models@[k as int].fields@[b].field_type),
                                _ => false,
                            },
                        decreases rel.fields@.len() - j,
                    {
                        let a = crate::store::first_field(&m.fields, rel.fields[j].as_str());
                        let b = crate::store::first_field(&target.fields, rel.references[j].as_str());
                        match (a, b) {
                            (Some(a), Some(b)) => {
                                if !same_scalar_type_exec(&m.fields[a].field_type, &target.fields[b].field_type) {
                                    proof {
                                        let fj = rel.fields@[j as int];
                                        assert(!relation_pairs_ok(models@, i as int, *rel));
                                    }
                                    return false;
                                }
                            },
                            _ => {
                                proof {
                                    assert(!relation_pairs_ok(models@, i as int, *rel));
                                }
                                return false;
                            },
                        }
                        j = j + 1;
                    }
                },
                None => {},
            }
        }
        q = q + 1;
    }
    true
}

/// The schema: enums and models, fixed once built.
pub struct Graph {
    pub enums: Vec<Enum>,
    pub models: Vec<Model>,
}

impl Graph {
    pub open spec fn wf(&self) -> bool {
        &&& schema_valid(self.models@, self.enums@)
        &&& forall|i: int| 0 <= i < self.models@.len() ==> (#[trigger] self.models@[i]).keys_derived()
    }

    /// Finishes a schema. It is refused, with the kind of the first fault
    /// found, when two models share a name or a URL segment, a model has no
    /// primary field, a field names an undeclared enum, a relation names an
    /// undeclared model, or a direct relation has not as many fields as
    /// references.
    pub fn new(builder: GraphBuilder) -> (r: Result<Graph, SchemaError>)
        requires
            forall|i: int| 0 <= i < builder.models@.len() ==> (#[trigger] builder.models@[i]).keys_derived(),
        ensures
            r is Ok <==> schema_valid(builder.models@, builder.enums@),
            match r {
                Ok(g) => g.wf() && g.models == builder.models && g.enums == builder.enums,
                Err(e) => match e.kind {
                    SchemaErrorKind::Redefinition => !model_names_distinct(builder.models@),
                    SchemaErrorKind::DuplicateUrlSegment => !url_segments_distinct(builder.models@),
                    SchemaErrorKind::MissingPrimaryIndex => !primaries_declared(builder.models@),
                    SchemaErrorKind::UnknownEnum => !enums_resolve(builder.models@, builder.enums@),
                    SchemaErrorKind::DanglingRelation => !relations_resolve(builder.models@),
                    SchemaErrorKind::RelationArityMismatch => !relation_arities_match(builder.models@),
                    SchemaErrorKind::EnumRedefinition => !enum_names_distinct(builder.enums@),
                    SchemaErrorKind::IllegalDefault => !defaults_legal(builder.models@),
                    SchemaErrorKind::InvalidUniqueKey => !unique_keys_scalar(builder.models@),
                    SchemaErrorKind::RelationTypeMismatch => !relation_types_match(builder.models@),
                },
            },
    {
        match check_distinct(&builder.models) {
            Some((kind, i)) => {
                return Err(SchemaError { kind, model: builder.models[i].name.clone() });
            },
            None => {},
        }
        let mut i: usize = 0;
        while i < builder.models.len()
            invariant
                0 <= i <= builder.models.len(),
                model_names_distinct(builder.models@),
                url_segments_distinct(builder.models@),
                forall|a: int| 0 <= a < i ==> (#[trigger] builder.models@[a]).has_primary(),
                forall|a: int, f: int|
                    #![trigger builder.models@[a].fields@[f]]
                    0 <= a < i && 0 <= f < builder.models@[a].fields@.len() ==> match builder.models@[a].fields@[f].field_type {
                        FieldType::Enum(e) => enum_declared(builder.enums@, e@),
                        _ => true,
                    },
                forall|a: int, q: int|
                    #![trigger builder.models@[a].relations@[q]]
                    0 <= a < i && 0 <= q < builder.models@[a].relations@.len() ==> {
                        let rel = builder.models@[a].relations@[q];
                        &&& model_declared(builder.models@, rel.model@)
                        &&& match rel.through {
                            Some(t) => model_declared(builder.models@, t@),
                            None => true,
                        }
                        &&& rel.through is None ==> rel.fields@.len() == rel.references@.len()
                    },
            decreases builder.models.len() - i,
        {
            match check_model(&builder.models, &builder.enums, i) {
                Some(kind) => {
                    return Err(SchemaError { kind, model: builder.models[i].name.clone() });
                },
                None => {},
            }
            i = i + 1;
        }
        if !check_enums(&builder.enums) {
            return Err(SchemaError { kind: SchemaErrorKind::EnumRedefinition, model: String::new() });
        }
        let mut i: usize = 0;
        while i < builder.models.len()
            invariant
                0 <= i <= builder.models.len(),
                schema_valid_base(builder.models@, builder.enums@),
                enum_names_distinct(builder.enums@),
                forall|a: int, f: int|
                    #![trigger builder.models@[a].fields@[f]]
                    0 <= a < i && 0 <= f < builder.models@[a].fields@.len() ==> !default_illegal(builder.models@[a].fields@[f])
                        && !unique_key_illegal(builder.models@[a].fields@[f]),
                forall|a: int, q: int|
                    #![trigger builder.models@[a].relations@[q]]
                    0 <= a < i && 0 <= q < builder.models@[a].relations@.len() ==> relation_pairs_ok(builder.models@, a, builder.models@[a].relations@[q]),
            decreases builder.models.len() - i,
        {
            match check_fields(&builder.models, i) {
                Some(kind) => {
                    return Err(SchemaError { kind, model: builder.models[i].name.clone() });
                },
                None => {},
            }
            if !check_relation_types(&builder.models, i) {
                return Err(SchemaError { kind: SchemaErrorKind::RelationTypeMismatch, model: builder.models[i].name.clone() });
            }
            i = i + 1;
        }
        Ok(Graph { enums: builder.enums, models: builder.models })
    }

    pub fn model(&self, name: &str) -> (r: Option<&Model>)
        ensures
            match r {
                Some(m) => exists|k: int|
                    0 <= k < self.models@.len() && self.models@[k] == *m && m.name@ == name@,
                None => !model_declared(self.models@, name@),
            },
    {
        find_model(&self.models, name)
    }

    pub fn model_with_url_segment_name(&self, segment: &str) -> (r: Option<&Model>)
        ensures
            match r {
                Some(m) => exists|k: int|
                    0 <= k < self.models@.len() && self.models@[k] == *m && m.url_segment_name@
                        == segment@,
                None => forall|k: int|
                    0 <= k < self.models@.len() ==> (#[trigger] self.models@[k]).url_segment_name@
                        != segment@,
            },
    {
        let mut k: usize = 0;
        while k < self.models.len()
            invariant
                0 <= k <= self.models.len(),
                forall|j: int| 0 <= j < k ==> (#[trigger] self.models@[j]).url_segment_name@ != segment@,
            decreases self.models.len() - k,
        {
            if str_eq(self.models[k].url_segment_name.as_str(), segment) {
                return Some(&self.models[k]);
            }
            k = k + 1;
        }
        None
    }

    pub fn models(&self) -> (r: &Vec<Model>)
        ensures
            *r == self.models,
    {
        &self.models
    }

    pub fn enums(&self) -> (r: &Vec<Enum>)
        ensures
            *r == self.enums,
    {
        &self.enums
    }

    pub fn enum_def(&self, name: &str) -> (r: Option<&Enum>)
        ensures
            match r {
                Some(e) => exists|k: int|
                    0 <= k < self.enums@.len() && self.enums@[k] == *e && e.name@ == name@,
                None => !enum_declared(self.enums@, name@),
            },
    {
        find_enum(&self.enums, name)
    }

    pub fn enum_values(&self, name: &str) -> (r: Option<&Vec<String>>)
        ensures
            match r {
                Some(v) => exists|k: int|
                    0 <= k < self.enums@.len() && self.enums@[k].values == *v && self.enums@[k].name@
                        == name@,
                None => !enum_declared(self.enums@, name@),
            },
    {
        match find_enum(&self.enums, name) {
            Some(e) => Some(&e.values),
            None => None,
        }
    }

    /// The peer of a relation. A direct relation's peer is the relation of
    /// the referenced model whose fields are its references and whose
    /// references are its fields. A relation through a join model is first
    /// replaced by the join model's relation named by its `foreign` end,
    /// repeatedly, at most once per model; see [`resolve_relation`].
    pub fn opposite_relation(&self, rel: &Relation) -> (r: Option<(&Model, &Relation)>)
        requires
            model_names_distinct(self.models@),
        ensures
            match r {
                Some((m, o)) => exists|d: Relation|
                    #![trigger is_opposite(d, *m, *o)]
                    resolve_relation(self.models@, *rel, self.models@.len() as int) == Some(d) && is_opposite(d, *m, *o)
                        && exists|k: int| 0 <= k < self.models@.len() && self.models@[k] == *m,
                None => match resolve_relation(self.models@, *rel, self.models@.len() as int) {
                    Some(d) => no_opposite(self.models@, d),
                    None => true,
                },
            },
    {
        let mut cur: &Relation = rel;
        let mut fuel: usize = self.models.len();
        loop
            invariant
                model_names_distinct(self.models@),
                fuel <= self.models@.len(),
                resolve_relation(self.models@, *rel, self.models@.len() as int) == resolve_relation(self.models@, *cur, fuel as int),
            ensures
                cur.through is None,
                resolve_relation(self.models@, *rel, self.models@.len() as int) == resolve_relation(self.models@, *cur, fuel as int),
            decreases fuel,
        {
            match &cur.through {
                None => {
                    break;
                },
                Some(t) => {
                    if fuel == 0 {
                        return None;
                    }
                    let k = match model_index_of(&self.models, t.as_str()) {
                        Some(k) => k,
                        None => return None,
                    };
                    let f = match &cur.foreign {
                        Some(f) => f,
                        None => return None,
                    };
                    let j = match relation_index_of(&self.models[k], f.as_str()) {
                        Some(j) => j,
                        None => return None,
                    };
                    cur = &self.models[k].relations[j];
                    fuel = fuel - 1;
                },
            }
        }
        proof {
            assert(resolve_relation(self.models@, *cur, fuel as int) == Some(*cur));
        }
        self.direct_opposite(cur)
    }

    fn direct_opposite(&self, rel: &Relation) -> (r: Option<(&Model, &Relation)>)
        requires
            model_names_distinct(self.models@),
        ensures
            r is None ==> no_opposite(self.models@, *rel),
            match r {
                Some((m, o)) => is_opposite(*rel, *m, *o) && model_declared(self.models@, m.name@)
                    && exists|k: int| 0 <= k < self.models@.len() && self.models@[k] == *m,
                None => true,
            },
    {
        let m = match find_model(&self.models, rel.model.as_str()) {
            Some(m) => m,
            None => return None,
        };
        let mut q: usize = 0;
        while q < m.relations.len()
            invariant
                0 <= q <= m.relations.len(),
                forall|a: int| 0 <= a < q ==> !(names_of((#[trigger] m.relations@[a]).fields@) == names_of(rel.references@)
                    && names_of(m.relations@[a].references@) == names_of(rel.fields@)),
                m.name@ == rel.model@,
                exists|k: int| 0 <= k < self.models@.len() && self.models@[k] == *m,
            decreases m.relations.len() - q,
        {
            let o = &m.relations[q];
            if names_eq(&o.fields, &rel.references) && names_eq(&o.references, &rel.fields) {
                proof {
                    assert(m.relations@[q as int] == *o);
                    assert(m.relations@.contains(*o));
                }
                return Some((m, o));
            }
            q = q + 1;
        }
        proof {
            let k0 = choose|k: int| 0 <= k < self.models@.len() && self.models@[k] == *m;
            assert forall|k: int, q2: int|
                0 <= k < self.models@.len() && self.models@[k].name@ == rel.model@ && 0 <= q2 < self.models@[k].relations@.len()
                    implies !is_opposite(*rel, self.models@[k], #[trigger] self.models@[k].relations@[q2]) by {
                if k != k0 {
                    if k < k0 {
                        assert(self.models@[k].name@ != self.models@[k0].name@);
                    } else {
                        assert(self.models@[k0].name@ != self.models@[k].name@);
                    }
                }
                let o = self.models@[k].relations@[q2];
                if is_opposite(*rel, self.models@[k], o) {
                    let a = choose|a: int| 0 <= a < m.relations@.len() && m.relations@[a] == o;
                    assert(!(names_of(m.relations@[a].fields@) == names_of(rel.references@)
                        && names_of(m.relations@[a].references@) == names_of(rel.fields@)));
                }
            }
        }
        None
    }
}

/// The position of the first relation from `start` on called `name`.
pub open spec fn relation_pos(rels: Seq<Relation>, name: Seq<char>, start: int) -> Option<int>
    decreases rels.len() - start,
{
    if start < 0 || start >= rels.len() {
        None
    } else if rels[start].name@ == name {
        Some(start)
    } else {
        relation_pos(rels, name, start + 1)
    }
}

/// The direct relation that `rel` stands for: itself when direct, else
/// what the relation named by its `foreign` end in its join model stands
/// for, following at most `fuel` join models.
pub open spec fn resolve_relation(models: Seq<Model>, rel: Relation, fuel: int) -> Option<Relation>
    decreases fuel,
{
    match rel.through {
        None => Some(rel),
        Some(t) => if fuel <= 0 {
            None
        } else {
            match (model_pos(models, t@, 0), rel.foreign) {
                (Some(k), Some(f)) => match relation_pos(models[k].relations@, f@, 0) {
                    Some(j) => resolve_relation(models, models[k].relations@[j], fuel - 1),
                    None => None,
                },
                _ => None,
            }
        },
    }
}

fn model_index_of(models: &Vec<Model>, name: &str) -> (r: Option<usize>)
    ensures
        match model_pos(models@, name@, 0) {
            Some(k) => r matches Some(q) && q as int == k && 0 <= k < models@.len(),
            None => r is None,
        },
{
    let mut k: usize = 0;
    while k < models.len()
        invariant
            0 <= k <= models.len(),
            model_pos(models@, name@, 0) == model_pos(models@, name@, k as int),
        decreases models.len() - k,
    {
        if str_eq(models[k].name.as_str(), name) {
            return Some(k);
        }
        k = k + 1;
    }
    None
}

fn relation_index_of(m: &Model, name: &str) -> (r: Option<usize>)
    ensures
        match relation_pos(m.relations@, name@, 0) {
            Some(j) => r matches Some(q) && q as int == j && 0 <= j < m.relations@.len(),
            None => r is None,
        },
{
    let mut j: usize = 0;
    while j < m.relations.len()
        invariant
            0 <= j <= m.relations@.len(),
            relation_pos(m.relations@, name@, 0) == relation_pos(m.relations@, name@, j as int),
        decreases m.relations@.len() - j,
    {
        if str_eq(m.relations[j].name.as_str(), name) {
            return Some(j);
        }
        j = j + 1;
    }
    None
}

/// No declared model holds a peer of `rel`.
pub open spec fn no_opposite(models: Seq<Model>, rel: Relation) -> bool {
    forall|k: int, q: int|
        0 <= k < models.len() && models[k].name@ == rel.model@ && 0 <= q < models[k].relations@.len()
            ==> !is_opposite(rel, models[k], #[trigger] models[k].relations@[q])
}

/// `o` is the peer of `rel` on model `m`.
pub open spec fn is_opposite(rel: Relation, m: Model, o: Relation) -> bool {
    &&& m.name@ == rel.model@
    &&& m.relations@.contains(o)
    &&& names_of(o.fields@) == names_of(rel.references@)
    &&& names_of(o.references@) == names_of(rel.fields@)
}

} // verus!
