use vstd::prelude::*;
use crate::field::{
    Argument, Availability, Field, FieldIndex, FieldType, ObjectAssignment, Pipeline, QueryAbility,
    ReadRule, Store, WriteRule,
};
use crate::schema::{Enum, Model, Property, Relation};
use crate::text::str_eq;
use crate::value::Value;

verus! {

/// Collects the declaration of one field.
pub struct FieldBuilder {
    pub name: String,
    pub localized_name: String,
    pub description: String,
    pub field_type: FieldType,
    pub availability: Availability,
    pub store: Store,
    pub primary: bool,
    pub read_rule: ReadRule,
    pub write_rule: WriteRule,
    pub index: FieldIndex,
    pub query_ability: QueryAbility,
    pub object_assignment: ObjectAssignment,
    pub assigned_by_database: bool,
    pub auth_identity: bool,
    pub default: Option<Argument>,
    pub on_set_pipeline: Pipeline,
    pub on_save_pipeline: Pipeline,
    pub on_output_pipeline: Pipeline,
}

impl FieldBuilder {
    /// The field that this declaration describes.
    pub open spec fn spec_build(self) -> Field {
        Field {
            name: self.name,
            localized_name: self.localized_name,
            description: self.description,
            field_type: self.field_type,
            availability: self.availability,
            store: self.store,
            primary: self.primary,
            read_rule: self.read_rule,
            write_rule: self.write_rule,
            index: self.index,
            query_ability: self.query_ability,
            object_assignment: self.object_assignment,
            assigned_by_database: self.assigned_by_database,
            auth_identity: self.auth_identity,
            default: self.default,
            on_set_pipeline: self.on_set_pipeline,
            on_save_pipeline: self.on_save_pipeline,
            on_output_pipeline: self.on_output_pipeline,
        }
    }

    /// A fresh declaration: a required, embedded, readable and writable
    /// field of undefined type with no index, default or pipeline.
    pub fn new(name: &str) -> (r: FieldBuilder)
        ensures
            r.name@ == name@,
            r.localized_name@.len() == 0,
            r.description@.len() == 0,
            r.field_type is Undefined,
            r.availability == Availability::Required,
            r.store is Embedded,
            !r.primary,
            r.read_rule == ReadRule::Read,
            r.write_rule == WriteRule::Write,
            r.index is NoIndex,
            r.query_ability == QueryAbility::Queryable,
            r.object_assignment == ObjectAssignment::Reference,
            !r.assigned_by_database,
            !r.auth_identity,
            r.default is None,
            r.on_set_pipeline.items@.len() == 0,
            r.on_save_pipeline.items@.len() == 0,
            r.on_output_pipeline.items@.len() == 0,
    {
        FieldBuilder {
            name: String::from_str(name),
            localized_name: String::new(),
            description: String::new(),
            field_type: FieldType::Undefined,
            availability: Availability::Required,
            store: Store::Embedded,
            primary: false,
            read_rule: ReadRule::Read,
            write_rule: WriteRule::Write,
            index: FieldIndex::NoIndex,
            query_ability: QueryAbility::Queryable,
            object_assignment: ObjectAssignment::Reference,
            assigned_by_database: false,
            auth_identity: false,
            default: None,
            on_set_pipeline: Pipeline::new(),
            on_save_pipeline: Pipeline::new(),
            on_output_pipeline: Pipeline::new(),
        }
    }

    pub fn localized_name(&mut self, localized_name: &str)
        ensures
            final(self).localized_name@ == localized_name@,
            *old(self) == (FieldBuilder { localized_name: old(self).localized_name, ..*final(self) }),
    {
        self.localized_name = String::from_str(localized_name);
    }

    pub fn description(&mut self, description: &str)
        ensures
            final(self).description@ == description@,
            *old(self) == (FieldBuilder { description: old(self).description, ..*final(self) }),
    {
        self.description = String::from_str(description);
    }

    pub fn object_id(&mut self) -> (r: &mut Self)
        ensures
            *r == (FieldBuilder { field_type: FieldType::ObjectId, ..*old(self) }),
            *final(self) == *final(r),
    {
        self.field_type = FieldType::ObjectId;
        self
    }

    pub fn bool(&mut self) -> (r: &mut Self)
        ensures
            *r == (FieldBuilder { field_type: FieldType::Bool, ..*old(self) }),
            *final(self) == *final(r),
    {
        self.field_type = FieldType::Bool;
        self
    }

    pub fn i8(&mut self) -> (r: &mut Self)
        ensures
            *r == (FieldBuilder { field_type: FieldType::I8, ..*old(self) }),
            *final(self) == *final(r),
    {
        self.field_type = FieldType::I8;
        self
    }

    pub fn i16(&mut self) -> (r: &mut Self)
        ensures
            *r == (FieldBuilder { field_type: FieldType::I16, ..*old(self) }),
            *final(self) == *final(r),
    {
        self.field_type = FieldType::I16;
        self
    }

    pub fn i32(&mut self) -> (r: &mut Self)
        ensures
            *r == (FieldBuilder { field_type: FieldType::I32, ..*old(self) }),
            *final(self) == *final(r),
    {
        self.field_type = FieldType::I32;
        self
    }

    pub fn i64(&mut self) -> (r: &mut Self)
        ensures
            *r == (FieldBuilder { field_type: FieldType::I64, ..*old(self) }),
            *final(self) == *final(r),
    {
        self.field_type = FieldType::I64;
        self
    }

    pub fn i128(&mut self) -> (r: &mut Self)
        ensures
            *r == (FieldBuilder { field_type: FieldType::I128, ..*old(self) }),
            *final(self) == *final(r),
    {
        self.field_type = FieldType::I128;
        self
    }

    pub fn u8(&mut self) -> (r: &mut Self)
        ensures
            *r == (FieldBuilder { field_type: FieldType::U8, ..*old(self) }),
            *final(self) == *final(r),
    {
        self.field_type = FieldType::U8;
        self
    }

    pub fn u16(&mut self) -> (r: &mut Self)
        ensures
            *r == (FieldBuilder { field_type: FieldType::U16, ..*old(self) }),
            *final(self) == *final(r),
    {
        self.field_type = FieldType::U16;
        self
    }

    pub fn u32(&mut self) -> (r: &mut Self)
        ensures
            *r == (FieldBuilder { field_type: FieldType::U32, ..*old(self) }),
            *final(self) == *final(r),
    {
        self.field_type = FieldType::U32;
        self
    }

    pub fn u64(&mut self) -> (r: &mut Self)
        ensures
            *r == (FieldBuilder { field_type: FieldType::U64, ..*old(self) }),
            *final(self) == *final(r),
    {
        self.field_type = FieldType::U64;
        self
    }

    pub fn u128(&mut self) -> (r: &mut Self)
        ensures
            *r == (FieldBuilder { field_type: FieldType::U128, ..*old(self) }),
            *final(self) == *final(r),
    {
        self.field_type = FieldType::U128;
        self
    }

    pub fn float32(&mut self) -> (r: &mut Self)
        ensures
            *r == (FieldBuilder { field_type: FieldType::F32, ..*old(self) }),
            *final(self) == *final(r),
    {
        self.field_type = FieldType::F32;
        self
    }

    pub fn float64(&mut self) -> (r: &mut Self)
        ensures
            *r == (FieldBuilder { field_type: FieldType::F64, ..*old(self) }),
            *final(self) == *final(r),
    {
        self.field_type = FieldType::F64;
        self
    }

    pub fn decimal(&mut self) -> (r: &mut Self)
        ensures
            *r == (FieldBuilder { field_type: FieldType::Decimal, ..*old(self) }),
            *final(self) == *final(r),
    {
        self.field_type = FieldType::Decimal;
        self
    }

    pub fn string(&mut self) -> (r: &mut Self)
        ensures
            *r == (FieldBuilder { field_type: FieldType::String, ..*old(self) }),
            *final(self) == *final(r),
    {
        self.field_type = FieldType::String;
        self
    }

    pub fn date(&mut self) -> (r: &mut Self)
        ensures
            *r == (FieldBuilder { field_type: FieldType::Date, ..*old(self) }),
            *final(self) == *final(r),
    {
        self.field_type = FieldType::Date;
        self
    }

    pub fn datetime(&mut self) -> (r: &mut Self)
        ensures
            *r == (FieldBuilder { field_type: FieldType::DateTime, ..*old(self) }),
            *final(self) == *final(r),
    {
        self.field_type = FieldType::DateTime;
        self
    }

    /// The field holds a variant of the enum called `name`.
    pub fn enum_type(&mut self, name: &str) -> (r: &mut Self)
        ensures
            r.field_type matches FieldType::Enum(x) && x@ == name@,
            *old(self) == (FieldBuilder { field_type: old(self).field_type, ..*r }),
            *final(self) == *final(r),
    {
        self.field_type = FieldType::Enum(String::from_str(name));
        self
    }

    /// The field holds a list whose items are described by `item`.
    pub fn vec(&mut self, item: FieldBuilder) -> (r: &mut Self)
        ensures
            r.field_type matches FieldType::Vec(f) && *f == item.spec_build(),
            *old(self) == (FieldBuilder { field_type: old(self).field_type, ..*r }),
            *final(self) == *final(r),
    {
        let field = Field::new(item);
        self.field_type = FieldType::Vec(Box::new(field));
        self
    }

    /// The field holds a dictionary whose items are described by `item`.
    pub fn map(&mut self, item: FieldBuilder) -> (r: &mut Self)
        ensures
            r.field_type matches FieldType::HashMap(f) && *f == item.spec_build(),
            *old(self) == (FieldBuilder { field_type: old(self).field_type, ..*r }),
            *final(self) == *final(r),
    {
        let field = Field::new(item);
        self.field_type = FieldType::HashMap(Box::new(field));
        self
    }

    /// The field holds an object of the model called `model`.
    pub fn object(&mut self, model: &str) -> (r: &mut Self)
        ensures
            r.field_type matches FieldType::Object(x) && x@ == model@,
            *old(self) == (FieldBuilder { field_type: old(self).field_type, ..*r }),
            *final(self) == *final(r),
    {
        self.field_type = FieldType::Object(String::from_str(model));
        self
    }

    pub fn primary(&mut self) -> (r: &mut Self)
        ensures
            *r == (FieldBuilder { primary: true, ..*old(self) }),
            *final(self) == *final(r),
    {
        self.primary = true;
        self
    }

    /// Neither accepted from input nor shown in output.
    pub fn internal(&mut self) -> (r: &mut Self)
        ensures
            *r == (FieldBuilder { write_rule: WriteRule::NoWrite, read_rule: ReadRule::NoRead, ..*old(self) }),
            *final(self) == *final(r),
    {
        self.write_rule = WriteRule::NoWrite;
        self.read_rule = ReadRule::NoRead;
        self
    }

    pub fn readonly(&mut self) -> (r: &mut Self)
        ensures
            *r == (FieldBuilder { write_rule: WriteRule::NoWrite, ..*old(self) }),
            *final(self) == *final(r),
    {
        self.write_rule = WriteRule::NoWrite;
        self
    }

    pub fn writeonly(&mut self) -> (r: &mut Self)
        ensures
            *r == (FieldBuilder { read_rule: ReadRule::NoRead, query_ability: QueryAbility::Unqueryable, ..*old(self) }),
            *final(self) == *final(r),
    {
        self.read_rule = ReadRule::NoRead;
        self.query_ability = QueryAbility::Unqueryable;
        self
    }

    pub fn write_once(&mut self) -> (r: &mut Self)
        ensures
            *r == (FieldBuilder { write_rule: WriteRule::WriteOnce, ..*old(self) }),
            *final(self) == *final(r),
    {
        self.write_rule = WriteRule::WriteOnce;
        self
    }

    pub fn write_on_create(&mut self) -> (r: &mut Self)
        ensures
            *r == (FieldBuilder { write_rule: WriteRule::WriteOnCreate, ..*old(self) }),
            *final(self) == *final(r),
    {
        self.write_rule = WriteRule::WriteOnCreate;
        self
    }

    pub fn write_nonnull(&mut self) -> (r: &mut Self)
        ensures
            *r == (FieldBuilder { write_rule: WriteRule::WriteNonNull, ..*old(self) }),
            *final(self) == *final(r),
    {
        self.write_rule = WriteRule::WriteNonNull;
        self
    }

    pub fn unique(&mut self) -> (r: &mut Self)
        ensures
            *r == (FieldBuilder { index: FieldIndex::Unique, ..*old(self) }),
            *final(self) == *final(r),
    {
        self.index = FieldIndex::Unique;
        self
    }

    /// Part of the unique index called `key`.
    pub fn compound_unique(&mut self, key: &str) -> (r: &mut Self)
        ensures
            r.index matches FieldIndex::CompoundUnique(x) && x@ == key@,
            *old(self) == (FieldBuilder { index: old(self).index, ..*r }),
            *final(self) == *final(r),
    {
        self.index = FieldIndex::CompoundUnique(String::from_str(key));
        self
    }

    pub fn index(&mut self) -> (r: &mut Self)
        ensures
            *r == (FieldBuilder { index: FieldIndex::Index, ..*old(self) }),
            *final(self) == *final(r),
    {
        self.index = FieldIndex::Index;
        self
    }

    /// Part of the index called `key`.
    pub fn compound_index(&mut self, key: &str) -> (r: &mut Self)
        ensures
            r.index matches FieldIndex::CompoundIndex(x) && x@ == key@,
            *old(self) == (FieldBuilder { index: old(self).index, ..*r }),
            *final(self) == *final(r),
    {
        self.index = FieldIndex::CompoundIndex(String::from_str(key));
        self
    }

    pub fn optional(&mut self) -> (r: &mut Self)
        ensures
            *r == (FieldBuilder { availability: Availability::Optional, ..*old(self) }),
            *final(self) == *final(r),
    {
        self.availability = Availability::Optional;
        self
    }

    pub fn required(&mut self) -> (r: &mut Self)
        ensures
            *r == (FieldBuilder { availability: Availability::Required, ..*old(self) }),
            *final(self) == *final(r),
    {
        self.availability = Availability::Required;
        self
    }

    /// Stored through the foreign key `field`.
    pub fn linked_by(&mut self, field: &str) -> (r: &mut Self)
        ensures
            r.store matches Store::ForeignKey(x) && x@ == field@,
            *old(self) == (FieldBuilder { store: old(self).store, ..*r }),
            *final(self) == *final(r),
    {
        self.store = Store::ForeignKey(String::from_str(field));
        self
    }

    pub fn link_to(&mut self) -> (r: &mut Self)
        ensures
            *r == (FieldBuilder { store: Store::LocalKey, ..*old(self) }),
            *final(self) == *final(r),
    {
        self.store = Store::LocalKey;
        self
    }

    pub fn temp(&mut self) -> (r: &mut Self)
        ensures
            *r == (FieldBuilder { store: Store::Temp, ..*old(self) }),
            *final(self) == *final(r),
    {
        self.store = Store::Temp;
        self
    }

    pub fn calculated(&mut self) -> (r: &mut Self)
        ensures
            *r == (FieldBuilder { store: Store::Calculated, write_rule: WriteRule::NoWrite, ..*old(self) }),
            *final(self) == *final(r),
    {
        self.store = Store::Calculated;
        self.write_rule = WriteRule::NoWrite;
        self
    }

    pub fn copy(&mut self) -> (r: &mut Self)
        ensures
            *r == (FieldBuilder { object_assignment: ObjectAssignment::Copy, ..*old(self) }),
            *final(self) == *final(r),
    {
        self.object_assignment = ObjectAssignment::Copy;
        self
    }

    pub fn auth_identity(&mut self) -> (r: &mut Self)
        ensures
            *r == (FieldBuilder { auth_identity: true, ..*old(self) }),
            *final(self) == *final(r),
    {
        self.auth_identity = true;
        self
    }

    pub fn assigned_by_database(&mut self) -> (r: &mut Self)
        ensures
            *r == (FieldBuilder { assigned_by_database: true, ..*old(self) }),
            *final(self) == *final(r),
    {
        self.assigned_by_database = true;
        self
    }

    /// Adds the steps of `pipeline` after those already declared.
    pub fn on_set(&mut self, pipeline: Pipeline) -> (r: &mut Self)
        ensures
            r.on_set_pipeline.items@ == old(self).on_set_pipeline.items@ + pipeline.items@,
            *old(self) == (FieldBuilder { on_set_pipeline: old(self).on_set_pipeline, ..*r }),
            *final(self) == *final(r),
    {
        self.on_set_pipeline.extend(pipeline);
        self
    }

    /// Adds the steps of `pipeline` after those already declared.
    pub fn on_save(&mut self, pipeline: Pipeline) -> (r: &mut Self)
        ensures
            r.on_save_pipeline.items@ == old(self).on_save_pipeline.items@ + pipeline.items@,
            *old(self) == (FieldBuilder { on_save_pipeline: old(self).on_save_pipeline, ..*r }),
            *final(self) == *final(r),
    {
        self.on_save_pipeline.extend(pipeline);
        self
    }

    /// Adds the steps of `pipeline` after those already declared.
    pub fn on_output(&mut self, pipeline: Pipeline) -> (r: &mut Self)
        ensures
            r.on_output_pipeline.items@ == old(self).on_output_pipeline.items@ + pipeline.items@,
            *old(self) == (FieldBuilder { on_output_pipeline: old(self).on_output_pipeline, ..*r }),
            *final(self) == *final(r),
    {
        self.on_output_pipeline.extend(pipeline);
        self
    }

    pub fn assign_identity(&mut self) -> (r: &mut Self)
        ensures
            *r == *old(self),
            *final(self) == *final(r),
    {
        self
    }

    pub fn default(&mut self, value: Value) -> (r: &mut Self)
        ensures
            *r == (FieldBuilder { default: Some(Argument::ValueArgument(value)), ..*old(self) }),
            *final(self) == *final(r),
    {
        self.default = Some(Argument::ValueArgument(value));
        self
    }

    pub fn default_by_pipeline(&mut self, pipeline: Pipeline) -> (r: &mut Self)
        ensures
            *r == (FieldBuilder { default: Some(Argument::PipelineArgument(pipeline)), ..*old(self) }),
            *final(self) == *final(r),
    {
        self.default = Some(Argument::PipelineArgument(pipeline));
        self
    }
}

impl Field {
    /// The field that a declaration describes.
    pub fn new(builder: FieldBuilder) -> (r: Field)
        ensures
            r == builder.spec_build(),
    {
        Field {
            name: builder.name,
            localized_name: builder.localized_name,
            description: builder.description,
            field_type: builder.field_type,
            availability: builder.availability,
            store: builder.store,
            primary: builder.primary,
            read_rule: builder.read_rule,
            write_rule: builder.write_rule,
            index: builder.index,
            query_ability: builder.query_ability,
            object_assignment: builder.object_assignment,
            assigned_by_database: builder.assigned_by_database,
            auth_identity: builder.auth_identity,
            default: builder.default,
            on_set_pipeline: builder.on_set_pipeline,
            on_save_pipeline: builder.on_save_pipeline,
            on_output_pipeline: builder.on_output_pipeline,
        }
    }
}

/// Collects the declaration of one model.
pub struct ModelBuilder {
    pub name: String,
    pub localized_name: String,
    pub description: String,
    pub identity: bool,
    pub url_segment_name: Option<String>,
    pub fields: Vec<Field>,
    pub relations: Vec<Relation>,
    pub properties: Vec<Property>,
}

impl ModelBuilder {
    pub fn new(name: &str) -> (r: ModelBuilder)
        ensures
            r.name@ == name@,
            r.localized_name@.len() == 0,
            r.description@.len() == 0,
            !r.identity,
            r.url_segment_name is None,
            r.fields@.len() == 0,
            r.relations@.len() == 0,
            r.properties@.len() == 0,
    {
        ModelBuilder {
            name: String::from_str(name),
            localized_name: String::new(),
            description: String::new(),
            identity: false,
            url_segment_name: None,
            fields: Vec::new(),
            relations: Vec::new(),
            properties: Vec::new(),
        }
    }

    pub fn localized_name(&mut self, localized_name: &str)
        ensures
            final(self).localized_name@ == localized_name@,
            *old(self) == (ModelBuilder { localized_name: old(self).localized_name, ..*final(self) }),
    {
        self.localized_name = String::from_str(localized_name);
    }

    pub fn description(&mut self, description: &str)
        ensures
            final(self).description@ == description@,
            *old(self) == (ModelBuilder { description: old(self).description, ..*final(self) }),
    {
        self.description = String::from_str(description);
    }

    /// Overrides the URL segment that is otherwise derived from the name.
    pub fn url_segment_name(&mut self, segment: &str)
        ensures
            final(self).url_segment_name matches Some(s) && s@ == segment@,
            *old(self) == (ModelBuilder { url_segment_name: old(self).url_segment_name, ..*final(self) }),
    {
        self.url_segment_name = Some(String::from_str(segment));
    }

    pub fn identity(&mut self)
        ensures
            *final(self) == (ModelBuilder { identity: true, ..*old(self) }),
    {
        self.identity = true;
    }

    /// Adds a field after those already declared.
    pub fn field(&mut self, field: FieldBuilder)
        ensures
            final(self).fields@ == old(self).fields@.push(field.spec_build()),
            *old(self) == (ModelBuilder { fields: old(self).fields, ..*final(self) }),
    {
        self.fields.push(Field::new(field));
    }

    /// Adds a computed property after those already declared.
    pub fn property(&mut self, property: Property)
        ensures
            final(self).properties@ == old(self).properties@.push(property),
            *old(self) == (ModelBuilder { properties: old(self).properties, ..*final(self) }),
    {
        self.properties.push(property);
    }

    /// Adds a relation after those already declared.
    pub fn relation(&mut self, relation: Relation)
        ensures
            final(self).relations@ == old(self).relations@.push(relation),
            *old(self) == (ModelBuilder { relations: old(self).relations, ..*final(self) }),
    {
        self.relations.push(relation);
    }
}

/// Collects the declarations of a whole schema.
pub struct GraphBuilder {
    pub enums: Vec<Enum>,
    pub models: Vec<Model>,
}

impl GraphBuilder {
    pub fn new() -> (r: GraphBuilder)
        ensures
            r.enums@.len() == 0,
            r.models@.len() == 0,
    {
        GraphBuilder { enums: Vec::new(), models: Vec::new() }
    }

    /// Declares the enum `name`; a later declaration of the same name
    /// replaces the earlier one in place.
    pub fn add_enum(&mut self, name: &str, values: Vec<String>)
        ensures
            final(self).models == old(self).models,
            ({
                let olde = old(self).enums@;
                let newe = final(self).enums@;
                if exists|i: int| 0 <= i < olde.len() && (#[trigger] olde[i]).name@ == name@ {
                    &&& newe.len() == olde.len()
                    &&& exists|i: int|
                        0 <= i < olde.len() && (#[trigger] olde[i]).name@ == name@ && newe[i].name@ == name@
                            && newe[i].values == values && newe == olde.update(i, newe[i])
                } else {
                    &&& newe.len() == olde.len() + 1
                    &&& newe.drop_last() == olde
                    &&& newe.last().name@ == name@
                    &&& newe.last().values == values
                }
            }),
    {
        let mut i: usize = 0;
        while i < self.enums.len()
            invariant
                0 <= i <= self.enums.len(),
                self.enums == old(self).enums,
                self.models == old(self).models,
                forall|j: int| 0 <= j < i ==> (#[trigger] self.enums@[j]).name@ != name@,
            decreases self.enums.len() - i,
        {
            if str_eq(self.enums[i].name.as_str(), name) {
                let ghost olde = self.enums@;
                self.enums.set(i, Enum { name: String::from_str(name), values });
                proof {
                    assert(self.enums@ == olde.update(i as int, self.enums@[i as int]));
                    assert(olde[i as int].name@ == name@);
                }
                return;
            }
            i = i + 1;
        }
        self.enums.push(Enum { name: String::from_str(name), values });
        proof {
            assert(final(self).enums@.drop_last() =~= old(self).enums@);
        }
    }

    /// Finishes the declaration of a model and adds it after those already
    /// declared.
    pub fn model(&mut self, model: ModelBuilder)
        ensures
            final(self).models@.len() == old(self).models@.len() + 1,
            final(self).models@.drop_last() == old(self).models@,
            final(self).models@.last().built_from(model),
            final(self).enums == old(self).enums,
    {
        let m = Model::build(model);
        self.models.push(m);
        proof {
            assert(final(self).models@.drop_last() =~= old(self).models@);
        }
    }
}

} // verus!
