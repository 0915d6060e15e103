use vstd::prelude::*;
use crate::builders::FieldBuilder;
use crate::field::{Availability, Field, FieldType};
use crate::text::str_eq;
use crate::error::{ActionError, ErrorKind};
use crate::schema::Relation;
use crate::value::Value;

verus! {

/// How many values a declared field holds.
#[derive(PartialEq, Eq, Structural, Clone, Copy, Debug)]
pub enum Arity {
    Scalar,
    Array,
    Dictionary,
}

/// What a schema field declares itself to be.
#[derive(PartialEq, Eq, Structural, Clone, Copy, Debug)]
pub enum FieldClass {
    Unresolved,
    Field,
    Relation,
    Property,
}

/// The built-in type a one-segment type name stands for, if any.
pub open spec fn builtin_type(name: Seq<char>) -> Option<FieldType> {
    if name == "String"@ {
        Some(FieldType::String)
    } else if name == "Bool"@ {
        Some(FieldType::Bool)
    } else if name == "Int"@ || name == "Int32"@ {
        Some(FieldType::I32)
    } else if name == "Int64"@ {
        Some(FieldType::I64)
    } else if name == "Float32"@ {
        Some(FieldType::F32)
    } else if name == "Float"@ || name == "Float64"@ {
        Some(FieldType::F64)
    } else if name == "Date"@ {
        Some(FieldType::Date)
    } else if name == "DateTime"@ {
        Some(FieldType::DateTime)
    } else if name == "Decimal"@ {
        Some(FieldType::Decimal)
    } else if name == "ObjectId"@ {
        Some(FieldType::ObjectId)
    } else {
        None
    }
}

/// The field type a type path names: a built-in type for a one-segment
/// built-in name, otherwise the enum `enum_name` that the path resolves to.
pub fn field_type_from_path(path: &Vec<String>, enum_name: &str) -> (r: FieldType)
    ensures
        path@.len() == 1 && builtin_type(path@[0]@) is Some ==> r == builtin_type(path@[0]@)->0,
        !(path@.len() == 1 && builtin_type(path@[0]@) is Some) ==> (r matches FieldType::Enum(e) && e@ == enum_name@),
{
    if path.len() == 1 {
        let name = path[0].as_str();
        if str_eq(name, "String") {
            return FieldType::String;
        } else if str_eq(name, "Bool") {
            return FieldType::Bool;
        } else if str_eq(name, "Int") || str_eq(name, "Int32") {
            return FieldType::I32;
        } else if str_eq(name, "Int64") {
            return FieldType::I64;
        } else if str_eq(name, "Float32") {
            return FieldType::F32;
        } else if str_eq(name, "Float") || str_eq(name, "Float64") {
            return FieldType::F64;
        } else if str_eq(name, "Date") {
            return FieldType::Date;
        } else if str_eq(name, "DateTime") {
            return FieldType::DateTime;
        } else if str_eq(name, "Decimal") {
            return FieldType::Decimal;
        } else if str_eq(name, "ObjectId") {
            return FieldType::ObjectId;
        }
    }
    FieldType::Enum(String::from_str(enum_name))
}

pub open spec fn availability_of(required: bool) -> Availability {
    if required {
        Availability::Required
    } else {
        Availability::Optional
    }
}

/// Declares a field's type from its arity: a scalar takes the item type
/// and its own requiredness; a list or dictionary wraps an item field of
/// the item type and takes the collection's requiredness.
pub fn install_field_type(
    builder: &mut FieldBuilder,
    arity: Arity,
    item_required: bool,
    collection_required: bool,
    item_type: FieldType,
)
    ensures
        arity == Arity::Scalar ==> final(builder).availability == availability_of(item_required)
            && final(builder).field_type == item_type,
        arity != Arity::Scalar ==> final(builder).availability == availability_of(collection_required),
        arity == Arity::Array ==> (final(builder).field_type matches FieldType::Vec(f) && f.availability
            == availability_of(item_required) && f.field_type == item_type),
        arity == Arity::Dictionary ==> (final(builder).field_type matches FieldType::HashMap(f)
            && f.availability == availability_of(item_required) && f.field_type == item_type),
        *old(builder) == (FieldBuilder {
            availability: old(builder).availability,
            field_type: old(builder).field_type,
            ..*final(builder)
        }),
{
    match arity {
        Arity::Scalar => {
            if item_required {
                builder.required();
            } else {
                builder.optional();
            }
            builder.field_type = item_type;
        },
        _ => {
            if collection_required {
                builder.required();
            } else {
                builder.optional();
            }
            let mut inner = FieldBuilder::new("");
            if item_required {
                inner.required();
            } else {
                inner.optional();
            }
            inner.field_type = item_type;
            if arity == Arity::Array {
                builder.vec(inner);
            } else {
                builder.map(inner);
            }
        },
    }
}

/// Declares a property's type from its arity, as [`install_field_type`]
/// does for a field.
pub fn install_property_type(
    property: &mut crate::schema::Property,
    arity: Arity,
    item_required: bool,
    collection_required: bool,
    item_type: FieldType,
)
    ensures
        arity == Arity::Scalar ==> final(property).availability == availability_of(item_required)
            && final(property).field_type == item_type,
        arity != Arity::Scalar ==> final(property).availability == availability_of(collection_required),
        arity == Arity::Array ==> (final(property).field_type matches FieldType::Vec(f) && f.availability
            == availability_of(item_required) && f.field_type == item_type),
        arity == Arity::Dictionary ==> (final(property).field_type matches FieldType::HashMap(f)
            && f.availability == availability_of(item_required) && f.field_type == item_type),
        final(property).name == old(property).name,
        final(property).getter == old(property).getter,
        final(property).setter == old(property).setter,
{
    let mut builder = FieldBuilder::new("");
    install_field_type(&mut builder, arity, item_required, collection_required, item_type);
    property.availability = builder.availability;
    property.field_type = builder.field_type;
}

/// The class of a schema field from the names of its decorators: the first
/// `relation` makes a relation, the first `getter` or `setter` a property,
/// and a field is a plain field otherwise.
pub open spec fn class_from_decorators(names: Seq<Seq<char>>, start: int) -> FieldClass
    decreases names.len() - start,
{
    if start < 0 || start >= names.len() {
        FieldClass::Field
    } else if names[start] == "relation"@ {
        FieldClass::Relation
    } else if names[start] == "getter"@ || names[start] == "setter"@ {
        FieldClass::Property
    } else {
        class_from_decorators(names, start + 1)
    }
}

pub fn figure_out_class(decorator_names: &Vec<String>) -> (r: FieldClass)
    ensures
        r == class_from_decorators(decorator_names@.map_values(|s: String| s@), 0),
{
    let ghost names = decorator_names@.map_values(|s: String| s@);
    let mut i: usize = 0;
    while i < decorator_names.len()
        invariant
            0 <= i <= decorator_names@.len(),
            names == decorator_names@.map_values(|s: String| s@),
            class_from_decorators(names, 0) == class_from_decorators(names, i as int),
        decreases decorator_names@.len() - i,
    {
        let name = decorator_names[i].as_str();
        if str_eq(name, "relation") {
            return FieldClass::Relation;
        }
        if str_eq(name, "getter") || str_eq(name, "setter") {
            return FieldClass::Property;
        }
        i = i + 1;
    }
    FieldClass::Field
}

/// `@default(value)`: the field takes `value` when an input leaves it out.
pub fn default_decorator(value: Value, field: &mut FieldBuilder)
    ensures
        *final(field) == (FieldBuilder { default: Some(crate::field::Argument::ValueArgument(value)), ..*old(field) }),
{
    field.default(value);
}

/// `@auth_identity`: the field identifies the signed-in user.
pub fn auth_identity_decorator(field: &mut FieldBuilder)
    ensures
        *final(field) == (FieldBuilder { auth_identity: true, ..*old(field) }),
{
    field.auth_identity();
}

/// Why a relation's declared shape is refused.
#[derive(PartialEq, Eq, Structural, Clone, Copy, Debug)]
pub enum RelationShapeError {
    /// A list relation whose items may be missing.
    OptionalItems,
    /// A relation declared as a dictionary.
    Dictionary,
}

/// Sets a relation's target model and shape from its declared arity: a
/// single relation takes its requiredness from the item, a list relation
/// needs required items; dictionaries are refused. A refused shape leaves
/// the relation as it was.
pub fn install_relation_type(rel: &mut Relation, arity: Arity, item_required: bool, model: &str) -> (r: Result<(), RelationShapeError>)
    ensures
        arity == Arity::Dictionary ==> r == Err::<(), RelationShapeError>(RelationShapeError::Dictionary) && *final(rel) == *old(rel),
        arity == Arity::Array && !item_required ==> r == Err::<(), RelationShapeError>(RelationShapeError::OptionalItems) && *final(rel) == *old(rel),
        arity == Arity::Array && item_required ==> r is Ok && final(rel).is_vec && final(rel).model@ == model@
            && *old(rel) == (Relation { is_vec: old(rel).is_vec, model: old(rel).model, ..*final(rel) }),
        arity == Arity::Scalar ==> r is Ok && !final(rel).is_vec && final(rel).optional == !item_required
            && final(rel).model@ == model@
            && *old(rel) == (Relation { is_vec: old(rel).is_vec, model: old(rel).model, optional: old(rel).optional, ..*final(rel) }),
{
    match arity {
        Arity::Scalar => {
            rel.optional = !item_required;
            rel.is_vec = false;
            rel.model = String::from_str(model);
            Ok(())
        },
        Arity::Array => {
            if !item_required {
                return Err(RelationShapeError::OptionalItems);
            }
            rel.is_vec = true;
            rel.model = String::from_str(model);
            Ok(())
        },
        Arity::Dictionary => Err(RelationShapeError::Dictionary),
    }
}

/// The model of an interface reference.
pub struct InterfaceRefV {
    pub name: Seq<char>,
    pub args: Seq<InterfaceRefV>,
}

/// A reference to an interface type, with its type arguments.
#[derive(Debug)]
pub struct InterfaceRef {
    pub name: String,
    pub args: Vec<InterfaceRef>,
}

impl InterfaceRef {
    pub open spec fn view(&self) -> InterfaceRefV
        decreases self,
    {
        InterfaceRefV {
            name: self.name@,
            args: Seq::new(
                self.args.len() as nat,
                |i: int|
                    if 0 <= i < self.args.len() {
                        self.args[i].view()
                    } else {
                        InterfaceRefV { name: Seq::empty(), args: Seq::empty() }
                    },
            ),
        }
    }

    /// A deep copy.
    pub fn duplicate(&self) -> (r: InterfaceRef)
        ensures
            r@ == self@,
        decreases self,
    {
        let mut args: Vec<InterfaceRef> = Vec::new();
        let mut i: usize = 0;
        while i < self.args.len()
            invariant
                0 <= i <= self.args@.len(),
                args@.len() == i,
                forall|j: int| 0 <= j < i ==> (#[trigger] args@[j])@ == self.args@[j]@,
            decreases self.args@.len() - i,
        {
            proof {
                vstd::std_specs::vec::axiom_vec_index_decreases(self.args, i as int);
                assert(decreases_to!(*self => self.args));
            }
            args.push(self.args[i].duplicate());
            i = i + 1;
        }
        let r = InterfaceRef { name: self.name.clone(), args };
        proof {
            assert(r@.args =~= self@.args);
        }
        r
    }
}

/// The models of a resolved input shape: field names with their types.
pub open spec fn fields_view(v: Seq<(String, InterfaceRef)>) -> Seq<(Seq<char>, InterfaceRefV)> {
    v.map_values(|e: (String, InterfaceRef)| (e.0@, e.1@))
}

fn duplicate_fields(v: &Vec<(String, InterfaceRef)>) -> (r: Vec<(String, InterfaceRef)>)
    ensures
        fields_view(r@) == fields_view(v@),
{
    let mut out: Vec<(String, InterfaceRef)> = Vec::new();
    let mut i: usize = 0;
    while i < v.len()
        invariant
            0 <= i <= v@.len(),
            out@.len() == i,
            forall|j: int| 0 <= j < i ==> (#[trigger] out@[j]).0@ == v@[j].0@ && out@[j].1@ == v@[j].1@,
        decreases v@.len() - i,
    {
        out.push((v[i].0.clone(), v[i].1.duplicate()));
        i = i + 1;
    }
    proof {
        assert(fields_view(out@) =~= fields_view(v@));
    }
    out
}

/// One action declared in an action group, with its resolved input shape.
pub struct ActionDeclaration {
    pub name: String,
    pub input: InterfaceRef,
    pub output: InterfaceRef,
    pub input_fields: Vec<(String, InterfaceRef)>,
}

/// A group of custom actions.
pub struct ActionGroupDeclaration {
    pub name: String,
    pub actions: Vec<ActionDeclaration>,
}

/// A custom action installed under its group.
pub struct CustomActionDefinition {
    pub group: String,
    pub name: String,
    pub input: InterfaceRef,
    pub output: InterfaceRef,
    pub input_fields: Vec<(String, InterfaceRef)>,
}

/// The model of an installed custom action.
pub struct ActionDefV {
    pub group: Seq<char>,
    pub name: Seq<char>,
    pub input: InterfaceRefV,
    pub output: InterfaceRefV,
    pub input_fields: Seq<(Seq<char>, InterfaceRefV)>,
}

impl CustomActionDefinition {
    pub open spec fn view(&self) -> ActionDefV {
        ActionDefV {
            group: self.group@,
            name: self.name@,
            input: self.input@,
            output: self.output@,
            input_fields: fields_view(self.input_fields@),
        }
    }
}

/// The definition that declaring `a` in group `group` installs.
pub open spec fn declared_def(group: Seq<char>, a: ActionDeclaration) -> ActionDefV {
    ActionDefV { group, name: a.name@, input: a.input@, output: a.output@, input_fields: fields_view(a.input_fields@) }
}

/// The custom actions of a namespace.
pub struct CustomActions {
    pub defs: Vec<CustomActionDefinition>,
}

pub open spec fn def_views(defs: Seq<CustomActionDefinition>) -> Seq<ActionDefV> {
    defs.map_values(|d: CustomActionDefinition| d@)
}

/// The (group, action) names of definitions.
pub open spec fn keys_of(defs: Seq<ActionDefV>) -> Seq<(Seq<char>, Seq<char>)> {
    defs.map_values(|d: ActionDefV| (d.group, d.name))
}

/// The definitions that the first `n` groups declare, group after group,
/// each group's actions in order.
pub open spec fn declared_defs(groups: Seq<ActionGroupDeclaration>, n: int) -> Seq<ActionDefV>
    decreases n,
{
    if n <= 0 {
        Seq::empty()
    } else {
        declared_defs(groups, n - 1) + group_defs(groups[n - 1], groups[n - 1].actions@.len() as int)
    }
}

/// The definitions that the first `a` actions of a group declare.
pub open spec fn group_defs(g: ActionGroupDeclaration, a: int) -> Seq<ActionDefV> {
    g.actions@.subrange(0, a).map_values(|x: ActionDeclaration| declared_def(g.name@, x))
}

impl CustomActions {
    /// Installs one custom action; an action already installed under the
    /// same group and name is refused and nothing changes.
    pub fn add_custom_action_declaration(&mut self, def: CustomActionDefinition) -> (r: Result<(), ActionError>)
        ensures
            keys_of(def_views(old(self).defs@)).contains((def.group@, def.name@)) ==> r is Err && r->Err_0.kind == ErrorKind::InvalidOperation && *final(self) == *old(self),
            !keys_of(def_views(old(self).defs@)).contains((def.group@, def.name@)) ==> r is Ok && def_views(final(self).defs@) == def_views(old(self).defs@).push(def@),
    {
        let ghost keys = keys_of(def_views(self.defs@));
        let mut i: usize = 0;
        while i < self.defs.len()
            invariant
                0 <= i <= self.defs@.len(),
                keys == keys_of(def_views(self.defs@)),
                forall|j: int| 0 <= j < i ==> (#[trigger] keys[j]) != (def.group@, def.name@),
            decreases self.defs@.len() - i,
        {
            proof {
                assert(keys[i as int] == (self.defs@[i as int].group@, self.defs@[i as int].name@));
            }
            if self.defs[i].group == def.group && self.defs[i].name == def.name {
                return Err(ActionError::simple(ErrorKind::InvalidOperation, "Custom action is declared twice."));
            }
            i = i + 1;
        }
        let ghost before = def_views(self.defs@);
        let ghost dv = def@;
        self.defs.push(def);
        proof {
            assert(def_views(self.defs@) =~= before.push(dv));
        }
        Ok(())
    }
}

/// The definitions of the first `g` groups, followed by those of the first
/// `a` actions of group `g`, come first among those of all groups.
proof fn lemma_declared_prefix(groups: Seq<ActionGroupDeclaration>, g: int, a: int)
    requires
        0 <= g < groups.len(),
        0 <= a <= groups[g].actions@.len(),
    ensures
        declared_defs(groups, g).len() + a <= declared_defs(groups, groups.len() as int).len(),
        declared_defs(groups, groups.len() as int).subrange(0, declared_defs(groups, g).len() + a) == declared_defs(groups, g) + group_defs(groups[g], a),
{
    lemma_prefix_grows(groups, g + 1, groups.len() as int);
    let whole = group_defs(groups[g], groups[g].actions@.len() as int);
    assert(group_defs(groups[g], a) =~= whole.subrange(0, a));
    let d1 = declared_defs(groups, g + 1);
    assert(d1 == declared_defs(groups, g) + whole);
    assert(d1.subrange(0, declared_defs(groups, g).len() + a) =~= declared_defs(groups, g) + group_defs(groups[g], a));
}

proof fn lemma_prefix_grows(groups: Seq<ActionGroupDeclaration>, a: int, b: int)
    requires
        0 <= a <= b <= groups.len(),
    ensures
        declared_defs(groups, a).len() <= declared_defs(groups, b).len(),
        declared_defs(groups, b).subrange(0, declared_defs(groups, a).len() as int) == declared_defs(groups, a),
    decreases b - a,
{
    if a < b {
        lemma_prefix_grows(groups, a, b - 1);
        let x = declared_defs(groups, a);
        let y = declared_defs(groups, b - 1);
        let z = declared_defs(groups, b);
        assert(z.subrange(0, y.len() as int) =~= y);
        assert(z.subrange(0, x.len() as int) =~= y.subrange(0, x.len() as int));
    } else {
        assert(declared_defs(groups, b).subrange(0, declared_defs(groups, a).len() as int) =~= declared_defs(groups, a));
    }
}

/// Installs the actions of every group, in order, stopping at the first
/// refusal: an action whose group and name are already installed. What
/// was installed before the refusal stays installed.
pub fn install_action_groups(actions: &mut CustomActions, groups: &Vec<ActionGroupDeclaration>) -> (r: Result<(), ActionError>)
    ensures
        ({
            let all = declared_defs(groups@, groups@.len() as int);
            let before = def_views(old(actions).defs@);
            &&& r is Ok ==> def_views(final(actions).defs@) == before + all
            &&& r is Err ==> exists|p: int|
                0 <= p < all.len() && def_views(final(actions).defs@) == before + all.subrange(0, p)
                    && keys_of(before + all.subrange(0, p)).contains((#[trigger] all[p].group, all[p].name))
        }),
{
    let ghost start = def_views(actions.defs@);
    let ghost all = declared_defs(groups@, groups@.len() as int);
    let mut g: usize = 0;
    while g < groups.len()
        invariant
            0 <= g <= groups@.len(),
            start == def_views(old(actions).defs@),
            all == declared_defs(groups@, groups@.len() as int),
            def_views(actions.defs@) == start + declared_defs(groups@, g as int),
        decreases groups@.len() - g,
    {
        let group = &groups[g];
        let mut a: usize = 0;
        proof {
            assert(group_defs(*group, 0) =~= Seq::<ActionDefV>::empty());
        }
        while a < group.actions.len()
            invariant
                0 <= a <= group.actions@.len(),
                *group == groups@[g as int],
                g < groups@.len(),
                start == def_views(old(actions).defs@),
                all == declared_defs(groups@, groups@.len() as int),
                def_views(actions.defs@) == start + declared_defs(groups@, g as int) + group_defs(*group, a as int),
            decreases group.actions@.len() - a,
        {
            let act = &group.actions[a];
            let def = CustomActionDefinition {
                group: group.name.clone(),
                name: act.name.clone(),
                input: act.input.duplicate(),
                output: act.output.duplicate(),
                input_fields: duplicate_fields(&act.input_fields),
            };
            let ghost dv = def@;
            proof {
                assert(dv == declared_def(group.name@, *act));
            }
            let ghost cur = def_views(actions.defs@);
            match actions.add_custom_action_declaration(def) {
                Ok(()) => {},
                Err(e) => {
                    proof {
                        lemma_declared_prefix(groups@, g as int, a as int);
                        lemma_declared_prefix(groups@, g as int, a as int + 1);
                        let p = declared_defs(groups@, g as int).len() + a;
                        assert(group_defs(*group, a + 1)[a as int] == dv);
                        assert(all.subrange(0, p + 1) == declared_defs(groups@, g as int) + group_defs(*group, a + 1));
                        assert(all.subrange(0, p + 1)[p] == all[p]);
                        assert((declared_defs(groups@, g as int) + group_defs(*group, a + 1))[p] == dv);
                        assert(all[p] == dv);
                        assert(start + all.subrange(0, p) =~= cur);
                        assert(keys_of(cur).contains((dv.group, dv.name)));
                        assert(def_views(actions.defs@) == cur);
                        assert(keys_of(start + all.subrange(0, p)).contains((all[p].group, all[p].name)));
                    }
                    return Err(e);
                },
            }
            proof {
                assert(group_defs(*group, a + 1) =~= group_defs(*group, a as int).push(dv));
                assert(def_views(actions.defs@) =~= start + declared_defs(groups@, g as int) + group_defs(*group, a + 1));
            }
            a = a + 1;
        }
        proof {
            assert(declared_defs(groups@, g + 1) =~= declared_defs(groups@, g as int) + group_defs(groups@[g as int], group.actions@.len() as int));
            assert(def_views(actions.defs@) =~= start + declared_defs(groups@, g + 1));
        }
        g = g + 1;
    }
    Ok(())
}

} // verus!
