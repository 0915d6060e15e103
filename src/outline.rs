use vstd::prelude::*;
use crate::inflect::{pascal_case, pascal_case_of};
use crate::schema::{names_of, Graph, Model};
use crate::text::{concat, str_eq};

verus! {

/// The kinds of types a client is given for each model.
#[derive(PartialEq, Eq, Structural, Clone, Copy, Debug)]
pub enum ClassKind {
    Enum,
    DataOutput,
    SelectInput,
    IncludeInput,
    WhereInput,
    WhereUniqueInput,
    OrderByInput,
    CreateInput,
    CreateNestedManyInput,
    CreateNestedOneInput,
    ConnectOrCreateInput,
    UpdateInput,
    UpdateNestedManyInput,
    UpdateNestedOneInput,
}

/// One generated type: the model (or enum) it belongs to, the suffix of
/// its name, its kind, the names of its fields and, for each field,
/// whether it may be left out.
pub struct Class {
    pub model_name: String,
    pub name_suffix: String,
    pub kind: ClassKind,
    pub fields: Vec<String>,
    pub optional: Vec<bool>,
}

/// How a kind of class decides whether a field may be left out.
#[derive(PartialEq, Eq, Structural, Clone, Copy, Debug)]
pub enum FlagMode {
    /// As the field or relation is declared.
    Output,
    /// When a create input may omit it: optional, defaulted or assigned by
    /// the database; a relation when it is optional.
    Omissible,
    AllOptional,
    AllRequired,
}

pub open spec fn mode_of(k: ClassKind) -> FlagMode {
    match k {
        ClassKind::DataOutput | ClassKind::SelectInput => FlagMode::Output,
        ClassKind::CreateInput => FlagMode::Omissible,
        ClassKind::ConnectOrCreateInput | ClassKind::Enum => FlagMode::AllRequired,
        _ => FlagMode::AllOptional,
    }
}

/// The position of the first relation from `start` on called `name`.
pub open spec fn rel_pos(rels: Seq<crate::schema::Relation>, name: Seq<char>, start: int) -> Option<int>
    decreases rels.len() - start,
{
    if start < 0 || start >= rels.len() {
        None
    } else if rels[start].name@ == name {
        Some(start)
    } else {
        rel_pos(rels, name, start + 1)
    }
}

/// Whether key `k` of model `m` may be left out in a class of mode `mode`.
pub open spec fn key_flag(m: Model, k: Seq<char>, mode: FlagMode) -> bool {
    match mode {
        FlagMode::AllOptional => true,
        FlagMode::AllRequired => false,
        _ => match crate::store::first_pos(m.fields@, k, 0) {
            Some(i) => {
                let f = m.fields@[i];
                if mode == FlagMode::Output {
                    f.is_optional()
                } else {
                    f.is_optional() || f.default is Some || f.assigned_by_database
                }
            },
            None => match rel_pos(m.relations@, k, 0) {
                Some(j) => m.relations@[j].optional,
                None => false,
            },
        },
    }
}

/// A class of model `m` carries one flag per field, as its kind decides.
pub open spec fn class_ok(m: Model, c: Class) -> bool {
    &&& c.model_name@ == m.name@
    &&& c.optional@.len() == c.fields@.len()
    &&& forall|i: int| 0 <= i < c.fields@.len() ==> c.optional@[i] == key_flag(m, (#[trigger] c.fields@[i])@, mode_of(c.kind))
}

pub open spec fn all_ok(m: Model, cs: Seq<Class>) -> bool {
    forall|i: int| 0 <= i < cs.len() ==> class_ok(m, #[trigger] cs[i])
}

fn rel_position(m: &Model, name: &str) -> (r: Option<usize>)
    ensures
        match rel_pos(m.relations@, name@, 0) {
            Some(j) => r matches Some(q) && q as int == j && 0 <= j < m.relations@.len(),
            None => r is None,
        },
{
    let mut j: usize = 0;
    while j < m.relations.len()
        invariant
            0 <= j <= m.relations@.len(),
            rel_pos(m.relations@, name@, 0) == rel_pos(m.relations@, name@, j as int),
        decreases m.relations@.len() - j,
    {
        if str_eq(m.relations[j].name.as_str(), name) {
            return Some(j);
        }
        j = j + 1;
    }
    None
}

fn key_flag_exec(m: &Model, k: &str, mode: FlagMode) -> (r: bool)
    ensures
        r == key_flag(*m, k@, mode),
{
    match mode {
        FlagMode::AllOptional => true,
        FlagMode::AllRequired => false,
        _ => match crate::store::first_field(&m.fields, k) {
            Some(i) => {
                let f = &m.fields[i];
                if mode == FlagMode::Output {
                    f.optional()
                } else {
                    f.optional() || f.default.is_some() || f.assigned_by_database
                }
            },
            None => match rel_position(m, k) {
                Some(j) => m.relations[j].optional,
                None => false,
            },
        },
    }
}

fn mode_of_exec(k: ClassKind) -> (r: FlagMode)
    ensures
        r == mode_of(k),
{
    match k {
        ClassKind::DataOutput | ClassKind::SelectInput => FlagMode::Output,
        ClassKind::CreateInput => FlagMode::Omissible,
        ClassKind::ConnectOrCreateInput | ClassKind::Enum => FlagMode::AllRequired,
        _ => FlagMode::AllOptional,
    }
}

fn flags_for(m: &Model, fields: &Vec<String>, kind: ClassKind) -> (r: Vec<bool>)
    ensures
        r@.len() == fields@.len(),
        forall|i: int| 0 <= i < fields@.len() ==> r@[i] == key_flag(*m, (#[trigger] fields@[i])@, mode_of(kind)),
{
    let mode = mode_of_exec(kind);
    let mut out: Vec<bool> = Vec::new();
    let mut i: usize = 0;
    while i < fields.len()
        invariant
            0 <= i <= fields@.len(),
            mode == mode_of(kind),
            out@.len() == i,
            forall|j: int| 0 <= j < i ==> out@[j] == key_flag(*m, (#[trigger] fields@[j])@, mode),
        decreases fields@.len() - i,
    {
        out.push(key_flag_exec(m, fields[i].as_str(), mode));
        i = i + 1;
    }
    out
}

/// The generated types of a whole graph.
pub struct Outline {
    pub classes: Vec<Class>,
}

/// The part of a type name that leaves out the relation `without`.
pub open spec fn infix(without: Seq<char>) -> Seq<char> {
    if without.len() == 0 {
        Seq::empty()
    } else {
        "Without"@ + pascal_case_of(without)
    }
}

/// `before`, the infix leaving out `without`, then `after`.
pub fn without_infix_no_model_name(before: &str, without: &str, after: &str) -> (r: String)
    ensures
        r@ == before@ + infix(without@) + after@,
{
    if without.unicode_len() == 0 {
        proof {
            assert(before@ + infix(without@) =~= before@);
        }
        concat(before, after)
    } else {
        let p = pascal_case(without);
        let a = concat(before, "Without");
        let b = concat(a.as_str(), p.as_str());
        let r = concat(b.as_str(), after);
        proof {
            assert(r@ =~= before@ + infix(without@) + after@);
        }
        r
    }
}

/// The model name followed by [`without_infix_no_model_name`].
pub fn without_infix(model_name: &str, before: &str, without: &str, after: &str) -> (r: String)
    ensures
        r@ == model_name@ + before@ + infix(without@) + after@,
{
    let rest = without_infix_no_model_name(before, without, after);
    let r = concat(model_name, rest.as_str());
    proof {
        assert(r@ =~= model_name@ + before@ + infix(without@) + after@);
    }
    r
}

/// The classes of one "without" variant on the create side.
pub open spec fn create_group(w: Seq<char>) -> Seq<(ClassKind, Seq<char>)> {
    seq![
        (ClassKind::CreateInput, "Create"@ + infix(w) + "Input"@),
        (ClassKind::CreateNestedManyInput, "CreateNestedMany"@ + infix(w) + "Input"@),
        (ClassKind::CreateNestedOneInput, "CreateNestedOne"@ + infix(w) + "Input"@),
        (ClassKind::ConnectOrCreateInput, "ConnectOrCreate"@ + infix(w) + "Input"@),
    ]
}

/// The classes of one "without" variant on the update side.
pub open spec fn update_group(w: Seq<char>) -> Seq<(ClassKind, Seq<char>)> {
    seq![
        (ClassKind::UpdateInput, "Update"@ + infix(w) + "Input"@),
        (ClassKind::UpdateNestedManyInput, "UpdateNestedMany"@ + infix(w) + "Input"@),
        (ClassKind::UpdateNestedOneInput, "UpdateNestedOne"@ + infix(w) + "Input"@),
    ]
}

/// The classes of a list of variants, group after group.
pub open spec fn groups(ws: Seq<Seq<char>>, create: bool) -> Seq<(ClassKind, Seq<char>)>
    decreases ws.len(),
{
    if ws.len() == 0 {
        Seq::empty()
    } else {
        groups(ws.drop_last(), create) + if create {
            create_group(ws.last())
        } else {
            update_group(ws.last())
        }
    }
}

/// The variants of a model: the plain one, then one without each relation.
pub open spec fn withouts(m: Model) -> Seq<Seq<char>> {
    seq![Seq::<char>::empty()] + m.relations@.map_values(|r: crate::schema::Relation| r.name@)
}

/// The classes of a model, in order: data output, select, include (only
/// with relations), where, where-unique and order-by inputs, then the
/// create-side group of every variant, then the update-side group of every
/// variant.
pub open spec fn model_classes(m: Model) -> Seq<(ClassKind, Seq<char>)> {
    let heads = if m.relations@.len() == 0 {
        seq![
            (ClassKind::DataOutput, Seq::<char>::empty()),
            (ClassKind::SelectInput, "Select"@),
            (ClassKind::WhereInput, "WhereInput"@),
            (ClassKind::WhereUniqueInput, "WhereUniqueInput"@),
            (ClassKind::OrderByInput, "OrderByInput"@),
        ]
    } else {
        seq![
            (ClassKind::DataOutput, Seq::<char>::empty()),
            (ClassKind::SelectInput, "Select"@),
            (ClassKind::IncludeInput, "Include"@),
            (ClassKind::WhereInput, "WhereInput"@),
            (ClassKind::WhereUniqueInput, "WhereUniqueInput"@),
            (ClassKind::OrderByInput, "OrderByInput"@),
        ]
    };
    heads + groups(withouts(m), true) + groups(withouts(m), false)
}

pub open spec fn class_heads(cs: Seq<Class>) -> Seq<(ClassKind, Seq<char>)> {
    cs.map_values(|c: Class| (c.kind, c.name_suffix@))
}

fn clone_names(v: &Vec<String>) -> (r: Vec<String>)
    ensures
        names_of(r@) == names_of(v@),
{
    let mut out: Vec<String> = Vec::new();
    let mut i: usize = 0;
    while i < v.len()
        invariant
            0 <= i <= v.len(),
            out@.len() == i,
            forall|j: int| 0 <= j < i ==> (#[trigger] out@[j])@ == v@[j]@,
        decreases v.len() - i,
    {
        out.push(v[i].clone());
        i = i + 1;
    }
    proof {
        assert(names_of(out@) =~= names_of(v@));
    }
    out
}

pub open spec fn class_fields(cs: Seq<Class>) -> Seq<Seq<Seq<char>>> {
    cs.map_values(|c: Class| names_of(c.fields@))
}

/// The keys of a list other than `w`, in order.
pub open spec fn keys_without(keys: Seq<Seq<char>>, w: Seq<char>) -> Seq<Seq<char>>
    decreases keys.len(),
{
    if keys.len() == 0 {
        Seq::empty()
    } else {
        let prev = keys_without(keys.drop_last(), w);
        if keys.last() == w {
            prev
        } else {
            prev.push(keys.last())
        }
    }
}

pub open spec fn nested_create_names() -> Seq<Seq<char>> {
    seq!["create"@, "connectOrCreate"@, "connect"@]
}

pub open spec fn connect_or_create_names() -> Seq<Seq<char>> {
    seq!["where"@, "create"@]
}

pub open spec fn update_one_names() -> Seq<Seq<char>> {
    seq!["create"@, "connectOrCreate"@, "connect"@, "set"@, "update"@, "upsert"@, "disconnect"@, "delete"@]
}

pub open spec fn update_many_names() -> Seq<Seq<char>> {
    update_one_names() + seq!["updateMany"@, "deleteMany"@]
}

/// The field names of the classes of one variant, in class order: the
/// input keys other than the relation left out, then the fixed nested
/// operations.
pub open spec fn group_fields(m: Model, w: Seq<char>, create: bool) -> Seq<Seq<Seq<char>>> {
    let inputs = keys_without(names_of(m.input_keys@), w);
    if create {
        seq![inputs, nested_create_names(), nested_create_names(), connect_or_create_names()]
    } else {
        seq![inputs, update_many_names(), update_one_names()]
    }
}

pub open spec fn groups_fields(m: Model, ws: Seq<Seq<char>>, create: bool) -> Seq<Seq<Seq<char>>>
    decreases ws.len(),
{
    if ws.len() == 0 {
        Seq::empty()
    } else {
        groups_fields(m, ws.drop_last(), create) + group_fields(m, ws.last(), create)
    }
}

/// The field names of every class of a model, parallel to
/// [`model_classes`].
pub open spec fn model_fields(m: Model) -> Seq<Seq<Seq<char>>> {
    let rels = crate::schema::relation_names(m.relations@);
    let heads = if m.relations@.len() == 0 {
        seq![
            names_of(m.output_keys@) + rels,
            names_of(m.output_keys@),
            names_of(m.query_keys@),
            unique_member_names(m.fields@, m.fields@.len() as int),
            names_of(m.sort_keys@),
        ]
    } else {
        seq![
            names_of(m.output_keys@) + rels,
            names_of(m.output_keys@),
            rels,
            names_of(m.query_keys@),
            unique_member_names(m.fields@, m.fields@.len() as int),
            names_of(m.sort_keys@),
        ]
    };
    heads + groups_fields(m, withouts(m), true) + groups_fields(m, withouts(m), false)
}

/// The models' field lists, model after model.
pub open spec fn models_fields(models: Seq<Model>, n: int) -> Seq<Seq<Seq<char>>>
    decreases n,
{
    if n <= 0 {
        Seq::empty()
    } else {
        models_fields(models, n - 1) + model_fields(models[n - 1])
    }
}

fn push_name(v: &mut Vec<String>, s: &str)
    ensures
        names_of(final(v)@) == names_of(old(v)@).push(s@),
{
    let ghost before = v@;
    v.push(String::from_str(s));
    proof {
        assert(names_of(v@) =~= names_of(before).push(s@));
    }
}

fn nested_create_fields() -> (r: Vec<String>)
    ensures
        names_of(r@) == nested_create_names(),
{
    let mut v: Vec<String> = Vec::new();
    push_name(&mut v, "create");
    push_name(&mut v, "connectOrCreate");
    push_name(&mut v, "connect");
    proof {
        assert(names_of(v@) =~= nested_create_names());
    }
    v
}

fn connect_or_create_fields() -> (r: Vec<String>)
    ensures
        names_of(r@) == connect_or_create_names(),
{
    let mut v: Vec<String> = Vec::new();
    push_name(&mut v, "where");
    push_name(&mut v, "create");
    proof {
        assert(names_of(v@) =~= connect_or_create_names());
    }
    v
}

fn update_fields(many: bool) -> (r: Vec<String>)
    ensures
        names_of(r@) == if many {
            update_many_names()
        } else {
            update_one_names()
        },
{
    let mut v: Vec<String> = Vec::new();
    push_name(&mut v, "create");
    push_name(&mut v, "connectOrCreate");
    push_name(&mut v, "connect");
    push_name(&mut v, "set");
    push_name(&mut v, "update");
    push_name(&mut v, "upsert");
    push_name(&mut v, "disconnect");
    push_name(&mut v, "delete");
    proof {
        assert(names_of(v@) =~= update_one_names());
    }
    if many {
        push_name(&mut v, "updateMany");
        push_name(&mut v, "deleteMany");
        proof {
            assert(names_of(v@) =~= update_many_names());
        }
    }
    v
}

/// The keys other than `w`, in order; see [`keys_without`].
fn input_keys_without(keys: &Vec<String>, w: &str) -> (r: Vec<String>)
    ensures
        names_of(r@) == keys_without(names_of(keys@), w@),
{
    let ghost kv = names_of(keys@);
    let mut out: Vec<String> = Vec::new();
    proof {
        assert(kv.subrange(0, 0) =~= Seq::<Seq<char>>::empty());
        assert(names_of(out@) =~= Seq::<Seq<char>>::empty());
    }
    let mut i: usize = 0;
    while i < keys.len()
        invariant
            0 <= i <= keys@.len(),
            kv == names_of(keys@),
            names_of(out@) == keys_without(kv.subrange(0, i as int), w@),
        decreases keys@.len() - i,
    {
        proof {
            assert(kv.subrange(0, i + 1).drop_last() =~= kv.subrange(0, i as int));
            assert(kv.subrange(0, i + 1).last() == keys@[i as int]@);
        }
        if !str_eq(keys[i].as_str(), w) {
            let ghost before = names_of(out@);
            out.push(keys[i].clone());
            proof {
                assert(names_of(out@) =~= before.push(keys@[i as int]@));
            }
        }
        i = i + 1;
    }
    proof {
        assert(kv.subrange(0, i as int) =~= kv);
    }
    out
}

fn push_class(out: &mut Vec<Class>, m: &Model, suffix: String, kind: ClassKind, fields: Vec<String>)
    ensures
        class_heads(final(out)@) == class_heads(old(out)@).push((kind, suffix@)),
        final(out)@.len() == old(out)@.len() + 1,
        final(out)@.drop_last() == old(out)@,
        final(out)@.last().fields == fields,
        final(out)@.last().model_name@ == m.name@,
        class_fields(final(out)@) == class_fields(old(out)@).push(names_of(fields@)),
        class_ok(*m, final(out)@.last()),
        all_ok(*m, old(out)@) ==> all_ok(*m, final(out)@),
{
    let ghost before = out@;
    let ghost fv = names_of(fields@);
    let optional = flags_for(m, &fields, kind);
    out.push(Class { model_name: m.name.clone(), name_suffix: suffix, kind, fields, optional });
    proof {
        if all_ok(*m, before) {
            assert forall|i: int| 0 <= i < out@.len() implies class_ok(*m, #[trigger] out@[i]) by {
                if i < before.len() {
                    assert(out@[i] == before[i]);
                }
            }
        }
    }
    proof {
        assert(class_fields(out@) =~= class_fields(before).push(fv));
        assert(class_heads(out@) =~= class_heads(before).push((kind, suffix@)));
        assert(out@.drop_last() =~= before);
    }
}

fn push_group(out: &mut Vec<Class>, m: &Model, w: &str, create: bool)
    ensures
        class_heads(final(out)@) == class_heads(old(out)@) + if create {
            create_group(w@)
        } else {
            update_group(w@)
        },
        class_fields(final(out)@) == class_fields(old(out)@) + group_fields(*m, w@, create),
        all_ok(*m, old(out)@) ==> all_ok(*m, final(out)@),
{
    let ghost start = class_heads(out@);
    let ghost fstart = class_fields(out@);
    if create {
        let s = without_infix_no_model_name("Create", w, "Input");
        push_class(out, m, s, ClassKind::CreateInput, input_keys_without(&m.input_keys, w));
        let s = without_infix_no_model_name("CreateNestedMany", w, "Input");
        push_class(out, m, s, ClassKind::CreateNestedManyInput, nested_create_fields());
        let s = without_infix_no_model_name("CreateNestedOne", w, "Input");
        push_class(out, m, s, ClassKind::CreateNestedOneInput, nested_create_fields());
        let s = without_infix_no_model_name("ConnectOrCreate", w, "Input");
        push_class(out, m, s, ClassKind::ConnectOrCreateInput, connect_or_create_fields());
        proof {
            assert(class_heads(out@) =~= start + create_group(w@));
            assert(class_fields(out@) =~= fstart + group_fields(*m, w@, create));
        }
    } else {
        let s = without_infix_no_model_name("Update", w, "Input");
        push_class(out, m, s, ClassKind::UpdateInput, input_keys_without(&m.input_keys, w));
        let s = without_infix_no_model_name("UpdateNestedMany", w, "Input");
        push_class(
            out,
            m,
            s,
            ClassKind::UpdateNestedManyInput,
            update_fields(true),
        );
        let s = without_infix_no_model_name("UpdateNestedOne", w, "Input");
        push_class(
            out,
            m,
            s,
            ClassKind::UpdateNestedOneInput,
            update_fields(false),
        );
        proof {
            assert(class_heads(out@) =~= start + update_group(w@));
            assert(class_fields(out@) =~= fstart + group_fields(*m, w@, create));
        }
    }
}

fn push_groups(out: &mut Vec<Class>, m: &Model, create: bool)
    ensures
        class_heads(final(out)@) == class_heads(old(out)@) + groups(withouts(*m), create),
        class_fields(final(out)@) == class_fields(old(out)@) + groups_fields(*m, withouts(*m), create),
        all_ok(*m, old(out)@) ==> all_ok(*m, final(out)@),
{
    let ghost ok0 = all_ok(*m, out@);
    let ghost ws = withouts(*m);
    let ghost start = class_heads(out@);
    let ghost fstart = class_fields(out@);
    push_group(out, m, "", create);
    proof {
        assert(ws.subrange(0, 1) =~= seq![Seq::<char>::empty()]);
        assert(ws.subrange(0, 1).drop_last() =~= Seq::<Seq<char>>::empty());
        assert(""@ =~= Seq::<char>::empty()) by {
            reveal_strlit("");
        }
        assert(ws.subrange(0, 1).last() == Seq::<char>::empty());
        assert(groups(ws.subrange(0, 1).drop_last(), create) == Seq::<(ClassKind, Seq<char>)>::empty());
        let g = if create { create_group(Seq::<char>::empty()) } else { update_group(Seq::<char>::empty()) };
        assert(groups(ws.subrange(0, 1), create) =~= Seq::<(ClassKind, Seq<char>)>::empty() + g);
        assert(class_heads(out@) =~= start + groups(ws.subrange(0, 1), create));
        assert(groups_fields(*m, ws.subrange(0, 1).drop_last(), create) == Seq::<Seq<Seq<char>>>::empty());
        assert(groups_fields(*m, ws.subrange(0, 1), create) =~= Seq::<Seq<Seq<char>>>::empty() + group_fields(*m, Seq::<char>::empty(), create));
        assert(class_fields(out@) =~= fstart + groups_fields(*m, ws.subrange(0, 1), create));
    }
    let mut i: usize = 0;
    while i < m.relations.len()
        invariant
            0 <= i <= m.relations@.len(),
            ws == withouts(*m),
            ws.len() == m.relations@.len() + 1,
            class_heads(out@) == start + groups(ws.subrange(0, i + 1), create),
            class_fields(out@) == fstart + groups_fields(*m, ws.subrange(0, i + 1), create),
            ok0 == all_ok(*m, old(out)@),
            ok0 ==> all_ok(*m, out@),
        decreases m.relations@.len() - i,
    {
        let ghost before = class_heads(out@);
        push_group(out, m, m.relations[i].name.as_str(), create);
        proof {
            assert(ws.subrange(0, i + 2).drop_last() =~= ws.subrange(0, i + 1));
            assert(ws.subrange(0, i + 2).last() == m.relations@[i as int].name@);
            assert(class_heads(out@) =~= start + groups(ws.subrange(0, i + 2), create));
            assert(class_fields(out@) =~= fstart + groups_fields(*m, ws.subrange(0, i + 2), create));
        }
        i = i + 1;
    }
    proof {
        assert(ws.subrange(0, i + 1) =~= ws);
    }
}

fn relation_names(m: &Model) -> (r: Vec<String>)
    ensures
        names_of(r@) == crate::schema::relation_names(m.relations@),
{
    let mut out: Vec<String> = Vec::new();
    let mut i: usize = 0;
    while i < m.relations.len()
        invariant
            0 <= i <= m.relations@.len(),
            out@.len() == i,
            forall|j: int| 0 <= j < i ==> (#[trigger] out@[j])@ == m.relations@[j].name@,
        decreases m.relations@.len() - i,
    {
        out.push(m.relations[i].name.clone());
        i = i + 1;
    }
    proof {
        assert(names_of(out@) =~= crate::schema::relation_names(m.relations@));
    }
    out
}

pub open spec fn unique_member(f: crate::field::Field) -> bool {
    f.primary || f.index is Unique || f.index is CompoundUnique
}

/// The names of the first `n` fields that belong to a unique index, primary
/// ones included, with a name dropped when it repeats the one before it.
pub open spec fn unique_member_names(fields: Seq<crate::field::Field>, n: int) -> Seq<Seq<char>>
    decreases n,
{
    if n <= 0 {
        Seq::empty()
    } else {
        let prev = unique_member_names(fields, n - 1);
        let f = fields[n - 1];
        if unique_member(f) && !(prev.len() > 0 && prev.last() == f.name@) {
            prev.push(f.name@)
        } else {
            prev
        }
    }
}

fn unique_field_names(m: &Model) -> (r: Vec<String>)
    ensures
        names_of(r@) == unique_member_names(m.fields@, m.fields@.len() as int),
{
    let mut out: Vec<String> = Vec::new();
    proof {
        assert(names_of(out@) =~= Seq::<Seq<char>>::empty());
    }
    let mut i: usize = 0;
    while i < m.fields.len()
        invariant
            0 <= i <= m.fields@.len(),
            names_of(out@) == unique_member_names(m.fields@, i as int),
        decreases m.fields@.len() - i,
    {
        let f = &m.fields[i];
        let member = f.primary || match &f.index {
            crate::field::FieldIndex::Unique | crate::field::FieldIndex::CompoundUnique(_) => true,
            _ => false,
        };
        if member {
            let repeat = out.len() > 0 && out[out.len() - 1] == f.name;
            proof {
                if out@.len() > 0 {
                    assert(names_of(out@).last() == out@[out@.len() - 1]@);
                }
            }
            if !repeat {
                let ghost before = names_of(out@);
                out.push(f.name.clone());
                proof {
                    assert(names_of(out@) =~= before.push(f.name@));
                }
            }
        }
        i = i + 1;
    }
    out
}

/// The classes of one model; see [`model_classes`].
pub fn model_outline(m: &Model) -> (r: Vec<Class>)
    ensures
        class_heads(r@) == model_classes(*m),
        class_fields(r@) == model_fields(*m),
        all_ok(*m, r@),
{
    let mut out: Vec<Class> = Vec::new();
    proof {
        assert(all_ok(*m, out@));
        assert(class_heads(out@) =~= Seq::<(ClassKind, Seq<char>)>::empty());
        assert(class_fields(out@) =~= Seq::<Seq<Seq<char>>>::empty());
    }
    let mut data_fields = clone_names(&m.output_keys);
    let mut rels = relation_names(m);
    let ghost dv = names_of(data_fields@);
    let ghost rv = names_of(rels@);
    data_fields.append(&mut rels);
    proof {
        assert(names_of(data_fields@) =~= dv + rv);
    }
    push_class(&mut out, m, String::new(), ClassKind::DataOutput, data_fields);
    push_class(&mut out, m, String::from_str("Select"), ClassKind::SelectInput, clone_names(&m.output_keys));
    if m.relations.len() > 0 {
        push_class(&mut out, m, String::from_str("Include"), ClassKind::IncludeInput, relation_names(m));
    }
    push_class(&mut out, m, String::from_str("WhereInput"), ClassKind::WhereInput, clone_names(&m.query_keys));
    push_class(&mut out, m, String::from_str("WhereUniqueInput"), ClassKind::WhereUniqueInput, unique_field_names(m));
    push_class(&mut out, m, String::from_str("OrderByInput"), ClassKind::OrderByInput, clone_names(&m.sort_keys));
    let ghost heads = class_heads(out@);
    push_groups(&mut out, m, true);
    push_groups(&mut out, m, false);
    proof {
        assert(class_heads(out@) =~= model_classes(*m));
        assert(class_fields(out@) =~= model_fields(*m));
    }
    out
}

/// The classes of the first `n` models, model after model.
pub open spec fn models_classes(models: Seq<Model>, n: int) -> Seq<(ClassKind, Seq<char>)>
    decreases n,
{
    if n <= 0 {
        Seq::empty()
    } else {
        models_classes(models, n - 1) + model_classes(models[n - 1])
    }
}

impl Outline {
    /// One class per enum, then the classes of every model in order.
    pub fn new(graph: &Graph) -> (r: Outline)
        ensures
            r.classes@.len() >= graph.enums@.len(),
            class_heads(r.classes@.subrange(graph.enums@.len() as int, r.classes@.len() as int))
                == models_classes(graph.models@, graph.models@.len() as int),
            class_fields(r.classes@.subrange(graph.enums@.len() as int, r.classes@.len() as int))
                == models_fields(graph.models@, graph.models@.len() as int),
            forall|k: int| 0 <= k < graph.enums@.len() ==> (#[trigger] r.classes@[k]).kind == ClassKind::Enum
                && r.classes@[k].model_name@ == graph.enums@[k].name@ && names_of(r.classes@[k].fields@) == names_of(graph.enums@[k].values@),
            forall|k: int| graph.enums@.len() <= k < r.classes@.len() ==> exists|j: int|
                0 <= j < graph.models@.len() && class_ok(graph.models@[j], #[trigger] r.classes@[k]),
    {
        let mut classes: Vec<Class> = Vec::new();
        let mut k: usize = 0;
        while k < graph.enums.len()
            invariant
                0 <= k <= graph.enums@.len(),
                classes@.len() == k,
                forall|j: int| 0 <= j < k ==> (#[trigger] classes@[j]).kind == ClassKind::Enum
                    && classes@[j].model_name@ == graph.enums@[j].name@ && names_of(classes@[j].fields@) == names_of(graph.enums@[j].values@),
            decreases graph.enums@.len() - k,
        {
            let e = &graph.enums[k];
            let fields = clone_names(&e.values);
            let mut optional: Vec<bool> = Vec::new();
            let mut v: usize = 0;
            while v < fields.len()
                invariant
                    0 <= v <= fields@.len(),
                    optional@.len() == v,
                decreases fields@.len() - v,
            {
                optional.push(false);
                v = v + 1;
            }
            classes.push(Class { model_name: e.name.clone(), name_suffix: String::new(), kind: ClassKind::Enum, fields, optional });
            k = k + 1;
        }
        proof {
            assert(class_heads(classes@.subrange(graph.enums@.len() as int, classes@.len() as int)) =~= Seq::<(ClassKind, Seq<char>)>::empty());
            assert(class_fields(classes@.subrange(graph.enums@.len() as int, classes@.len() as int)) =~= Seq::<Seq<Seq<char>>>::empty());
        }
        let mut i: usize = 0;
        while i < graph.models.len()
            invariant
                0 <= i <= graph.models@.len(),
                classes@.len() >= graph.enums@.len(),
                class_heads(classes@.subrange(graph.enums@.len() as int, classes@.len() as int))
                    == models_classes(graph.models@, i as int),
                class_fields(classes@.subrange(graph.enums@.len() as int, classes@.len() as int))
                    == models_fields(graph.models@, i as int),
                forall|j: int| 0 <= j < graph.enums@.len() ==> (#[trigger] classes@[j]).kind == ClassKind::Enum
                    && classes@[j].model_name@ == graph.enums@[j].name@ && names_of(classes@[j].fields@) == names_of(graph.enums@[j].values@),
                forall|k: int| graph.enums@.len() <= k < classes@.len() ==> exists|j: int|
                    0 <= j < graph.models@.len() && class_ok(graph.models@[j], #[trigger] classes@[k]),
            decreases graph.models@.len() - i,
        {
            let ghost before = classes@;
            let mut more = model_outline(&graph.models[i]);
            let ghost more_before = more@;
            classes.append(&mut more);
            proof {
                assert forall|j: int| 0 <= j < graph.enums@.len() implies classes@[j] == before[j] by {}
                assert forall|k: int| graph.enums@.len() <= k < classes@.len() implies exists|j: int|
                    0 <= j < graph.models@.len() && class_ok(graph.models@[j], #[trigger] classes@[k]) by {
                    if k < before.len() {
                        assert(classes@[k] == before[k]);
                    } else {
                        assert(classes@[k] == more_before[k - before.len()]);
                        assert(class_ok(graph.models@[i as int], classes@[k]));
                    }
                }
                let e = graph.enums@.len() as int;
                assert(classes@.subrange(e, classes@.len() as int) =~= before.subrange(e, before.len() as int) + more_before);
                assert(class_heads(before.subrange(e, before.len() as int) + more_before) =~= class_heads(before.subrange(e, before.len() as int)) + class_heads(more_before));
                assert(class_fields(before.subrange(e, before.len() as int) + more_before) =~= class_fields(before.subrange(e, before.len() as int)) + class_fields(more_before));
            }
            i = i + 1;
        }
        Outline { classes }
    }
}

} // verus!
