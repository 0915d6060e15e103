use teo_core::app_ctx::{AppCtx, Entrance, Program};
use teo_core::builders::{FieldBuilder, GraphBuilder, ModelBuilder};
use teo_core::db_type::{
    default_database_type_mssql, default_database_type_mysql, DatabaseType, SqlDialect, ToDatabaseType,
};
use teo_core::decoder::{decode, encode, InputMode, InputPlan};
use teo_core::error::{ActionError, ErrorKind};
use teo_core::field::{Availability, FieldType, Pipeline, ReadRule, WriteRule};
use teo_core::filter::{Cond, Where};
use teo_core::install::{
    install_action_groups, install_property_type, install_relation_type, ActionDeclaration, ActionGroupDeclaration, CustomActions, InterfaceRef,
    RelationShapeError,
    auth_identity_decorator, default_decorator, field_type_from_path, figure_out_class, install_field_type, Arity,
    FieldClass,
};
use teo_core::object::Object;
use teo_core::query::{complete_order_by, compile_where, select_fields, superkey, SortOrder};
use teo_core::outline::{model_outline, without_infix, without_infix_no_model_name, ClassKind, Outline};
use teo_core::schema::{Enum, Graph, Property, Relation, SchemaErrorKind};
use teo_core::store::{MemoryStore, BATCH_SIZE};
use teo_core::url::{dialect_of, is_memory_url, normalized_url, remove_db_path, remove_scheme, ConnectionUrl};
use teo_core::value::{value_eq, Value};

fn s(v: &str) -> Value {
    Value::Str(v.to_string())
}

fn pk() -> FieldBuilder {
    let mut f = FieldBuilder::new("id");
    f.primary().i64().assigned_by_database().readonly();
    f
}

fn graph_of(models: Vec<ModelBuilder>) -> Result<Graph, SchemaErrorKind> {
    let mut g = GraphBuilder::new();
    g.add_enum("Sex", vec!["MALE".to_string(), "FEMALE".to_string()]);
    for m in models {
        g.model(m);
    }
    Graph::new(g).map_err(|e| e.kind)
}

fn relation(name: &str, model: &str, fields: &[&str], references: &[&str]) -> Relation {
    Relation {
        name: name.to_string(),
        model: model.to_string(),
        fields: fields.iter().map(|x| x.to_string()).collect(),
        references: references.iter().map(|x| x.to_string()).collect(),
        through: None,
        local: None,
        foreign: None,
        is_vec: false,
        optional: false,
    }
}

#[test]
fn value_equality_is_structural() {
    let a = Value::List(vec![s("x"), Value::Int(3), Value::Dict(vec![("k".to_string(), Value::Bool(true))])]);
    let b = a.deep_clone();
    assert!(value_eq(&a, &b));
    assert!(!value_eq(&a, &Value::List(vec![s("x"), Value::Int(3)])));
    assert!(!value_eq(&Value::Int(1), &s("1")));
    assert!(value_eq(&Value::Null, &Value::Null));
}

#[test]
fn pipeline_runs_in_order_and_rejects_non_strings() {
    let mut p = Pipeline::new();
    p.str_append("-b");
    p.str_prepend("a-");
    assert_eq!(p.process(&s("x")), Some(s("a-x-b")));
    assert_eq!(p.process(&Value::Int(1)), None);
    assert!(Pipeline::new().process(&Value::Int(1)) == Some(Value::Int(1)));
}

#[test]
fn object_modified_set_tracks_changes() {
    let mut o = Object::from_row(0, &vec![s("a"), Value::Int(1)]);
    assert!(!o.is_modified());
    assert!(o.set(0, s("b")).is_ok());
    assert!(o.is_modified());
    assert_eq!(o.modified, vec![true, false]);
    assert!(o.set(0, s("a")).is_ok());
    assert!(!o.is_modified());
    assert!(o.set(1, Value::Int(2)).is_ok());
    o.commit();
    assert!(!o.is_modified());
    assert!(!o.is_new());
    assert_eq!(o.get(1), &Value::Int(2));
    o.mark_deleted();
    let err = o.set(1, Value::Int(3)).err().unwrap();
    assert_eq!(err.kind, ErrorKind::ObjectIsDeleted);
    assert_eq!(o.get(1), &Value::Int(2));
}

#[test]
fn new_object_is_new_and_clean() {
    let o = Object::new(3, 2);
    assert!(o.is_new());
    assert!(!o.is_modified());
    assert_eq!(o.row(), vec![Value::Null, Value::Null]);
}

#[test]
fn and_of_two_filters_is_their_intersection() {
    let rows = vec![vec![Value::Int(1), s("ab")], vec![Value::Int(5), s("ab")], vec![Value::Int(5), s("cd")]];
    let w1 = || Where::Field(0, vec![Cond::Gt(2)]);
    let w2 = || Where::Field(1, vec![Cond::StartsWith("a".to_string())]);
    let both = Where::And(vec![w1(), w2()]);
    for r in &rows {
        assert_eq!(both.matches(r), w1().matches(r) && w2().matches(r));
    }
    assert!(!both.matches(&rows[0]));
    assert!(both.matches(&rows[1]));
    assert!(!both.matches(&rows[2]));
    assert!(Where::And(vec![]).matches(&rows[0]));
    assert!(!Where::Or(vec![]).matches(&rows[0]));
    assert!(Where::Not(vec![w2()]).matches(&rows[2]));
}

#[test]
fn in_and_not_in_with_empty_lists() {
    let row = vec![Value::Int(1)];
    assert!(!Where::Field(0, vec![Cond::In(vec![])]).matches(&row));
    assert!(Where::Field(0, vec![Cond::NotIn(vec![])]).matches(&row));
    assert!(Where::Field(0, vec![Cond::In(vec![Value::Int(2), Value::Int(1)])]).matches(&row));
    assert!(!Where::Field(0, vec![Cond::NotIn(vec![Value::Int(1)])]).matches(&row));
    assert!(!Where::Field(3, vec![]).matches(&row));
}

#[test]
fn text_and_order_operators() {
    let row = vec![s("hello world"), Value::Int(10)];
    assert!(Where::Field(0, vec![Cond::Contains("o w".to_string())]).matches(&row));
    assert!(!Where::Field(0, vec![Cond::Contains("xyz".to_string())]).matches(&row));
    assert!(Where::Field(0, vec![Cond::EndsWith("world".to_string())]).matches(&row));
    assert!(!Where::Field(0, vec![Cond::EndsWith("hello".to_string())]).matches(&row));
    assert!(Where::Field(1, vec![Cond::Gte(10), Cond::Lte(10), Cond::Lt(11), Cond::Not(Value::Int(9))]).matches(&row));
    assert!(!Where::Field(0, vec![Cond::Lt(11)]).matches(&row));
}

fn plain_model() -> ModelBuilder {
    let mut m = ModelBuilder::new("Plain");
    m.field(pk());
    let mut f = FieldBuilder::new("name");
    f.string().optional();
    m.field(f);
    let mut f = FieldBuilder::new("age");
    f.u8();
    m.field(f);
    m
}

#[test]
fn decode_of_encode_gives_the_plan_back() {
    let g = graph_of(vec![plain_model()]).ok().unwrap();
    let m = &g.models[0];
    let plan = InputPlan { values: vec![None, Some(s("z")), Some(Value::Int(7))] };
    let payload = encode(&m.fields, &plan);
    assert_eq!(payload, vec![("name".to_string(), s("z")), ("age".to_string(), Value::Int(7))]);
    let back = decode(m, &g.enums, &payload, InputMode::Update).ok().unwrap();
    assert_eq!(back.values, plan.values);
}

#[test]
fn decode_collects_field_errors_in_order() {
    let g = graph_of(vec![plain_model()]).ok().unwrap();
    let m = &g.models[0];
    let payload = vec![("age".to_string(), Value::Int(-1)), ("name".to_string(), Value::Int(3))];
    let err: ActionError = decode(m, &g.enums, &payload, InputMode::Create).err().unwrap();
    assert_eq!(err.kind, ErrorKind::ValidationError);
    assert_eq!(
        err.errors,
        vec![("name".to_string(), "Unexpected value type.".to_string()), ("age".to_string(), "Unexpected value type.".to_string())]
    );
    let missing = decode(m, &g.enums, &vec![], InputMode::Create).err().unwrap();
    assert_eq!(missing.errors, vec![("age".to_string(), "Value is required.".to_string())]);
    let update = decode(m, &g.enums, &vec![], InputMode::Update).ok().unwrap();
    assert_eq!(update.values, vec![None, None, None]);
    let keys = decode(m, &g.enums, &vec![("id".to_string(), Value::Int(1))], InputMode::Create).err().unwrap();
    assert_eq!(keys.kind, ErrorKind::KeysUnallowed);
}

#[test]
fn write_rules_on_input() {
    let mut m = ModelBuilder::new("Rules");
    m.field(pk());
    let mut f = FieldBuilder::new("once");
    f.string().optional().write_on_create();
    m.field(f);
    let mut f = FieldBuilder::new("nonnull");
    f.string().optional().write_nonnull();
    m.field(f);
    let g = graph_of(vec![m]).ok().unwrap();
    let model = &g.models[0];
    assert!(decode(model, &g.enums, &vec![("once".to_string(), s("a"))], InputMode::Create).is_ok());
    let e = decode(model, &g.enums, &vec![("once".to_string(), s("a"))], InputMode::Update).err().unwrap();
    assert_eq!(e.kind, ErrorKind::KeysUnallowed);
    let e = decode(model, &g.enums, &vec![("nonnull".to_string(), Value::Null)], InputMode::Update).err().unwrap();
    assert_eq!(e.errors, vec![("nonnull".to_string(), "Value is required.".to_string())]);
}

#[test]
fn mysql_column_types() {
    assert!(matches!(default_database_type_mysql(&FieldType::String), DatabaseType::VarChar { m: 191, n: None, c: None }));
    assert!(matches!(default_database_type_mysql(&FieldType::DateTime), DatabaseType::DateTime(3)));
    assert!(matches!(default_database_type_mysql(&FieldType::I8), DatabaseType::TinyInt { m: None, u: false }));
    assert!(matches!(default_database_type_mysql(&FieldType::U64), DatabaseType::BigInt { m: None, u: true }));
    assert!(matches!(default_database_type_mysql(&FieldType::F64), DatabaseType::Double { m: None, d: None }));
    assert!(matches!(default_database_type_mysql(&FieldType::Enum("E".to_string())), DatabaseType::Undefined));
    assert!(matches!(default_database_type_mssql(&FieldType::Bool), DatabaseType::Bool));
    assert!(matches!(FieldType::Date.to_database_type(SqlDialect::PostgreSQL), DatabaseType::Date));
    assert!(matches!(FieldType::F32.to_database_type(SqlDialect::SQLite), DatabaseType::Real));
}

#[test]
fn schemes_are_removed() {
    assert_eq!(remove_scheme("file:///tmp/a.db"), "/tmp/a.db");
    assert_eq!(remove_scheme("file:a.db"), "a.db");
    assert_eq!(remove_scheme("sqlite://x.db"), "x.db");
    assert_eq!(remove_scheme("sqlite:x.db"), "x.db");
    assert_eq!(remove_scheme("mysql://root@h/db"), "root@h/db");
    assert_eq!(remove_scheme("postgres://h/db"), "h/db");
    assert_eq!(remove_scheme("mssql://h"), "h");
    assert_eq!(remove_scheme("mongodb://h"), "mongodb://h");
    assert!(is_memory_url(":memory:"));
    assert!(!is_memory_url("memory"));
}

fn conn(username: &str, password: Option<&str>) -> ConnectionUrl {
    ConnectionUrl {
        scheme: "mysql".to_string(),
        username: username.to_string(),
        password: password.map(|p| p.to_string()),
        host: "localhost".to_string(),
        port: Some(3306),
        path: "/db".to_string(),
    }
}

#[test]
fn mysql_url_defaults_to_root() {
    let u = normalized_url(SqlDialect::MySQL, conn("", None));
    assert_eq!(u.username, "root");
    assert_eq!(u.password, Some(String::new()));
    let u = normalized_url(SqlDialect::MySQL, conn("", Some("pw")));
    assert_eq!(u.password, Some("pw".to_string()));
    let u = normalized_url(SqlDialect::PostgreSQL, conn("", None));
    assert_eq!(u.username, "");
    assert_eq!(u.password, None);
    let u = normalized_url(SqlDialect::MySQL, conn("bob", None));
    assert_eq!(u.username, "bob");
    assert_eq!(u.password, None);
    assert_eq!(remove_db_path(SqlDialect::PostgreSQL, &conn("a", None)).path, "/postgres");
    assert_eq!(remove_db_path(SqlDialect::MySQL, &conn("a", None)).path, "/");
}

#[test]
fn url_segment_is_plural_snake_case() {
    let mut m = ModelBuilder::new("UserProfile");
    m.field(pk());
    let mut custom = ModelBuilder::new("Thing");
    custom.field(pk());
    custom.url_segment_name("stuff");
    let g = graph_of(vec![m, custom]).ok().unwrap();
    assert_eq!(g.models[0].url_segment_name, "user_profiles");
    assert_eq!(g.models[1].url_segment_name, "stuff");
    assert!(g.model_with_url_segment_name("stuff").is_some());
    assert!(g.model("Thing").is_some());
    assert!(g.model("Nothing").is_none());
}

#[test]
fn key_sets_follow_field_rules() {
    let mut m = ModelBuilder::new("Keys");
    m.field(pk());
    let mut f = FieldBuilder::new("secret");
    f.string().writeonly();
    m.field(f);
    let mut f = FieldBuilder::new("tags");
    let mut item = FieldBuilder::new("");
    item.string();
    f.vec(item);
    m.field(f);
    m.relation(relation("owner", "Keys", &["id"], &["id"]));
    let g = graph_of(vec![m]).ok().unwrap();
    let k = &g.models[0];
    assert_eq!(k.output_keys, vec!["id".to_string(), "tags".to_string()]);
    assert_eq!(k.input_keys, vec!["secret".to_string(), "tags".to_string(), "owner".to_string()]);
    assert_eq!(k.query_keys, vec!["id".to_string(), "tags".to_string(), "owner".to_string()]);
    assert_eq!(k.sort_keys, vec!["id".to_string(), "secret".to_string()]);
}

#[test]
fn schema_errors_are_reported() {
    let dup = || {
        let mut m = ModelBuilder::new("A");
        m.field(pk());
        m
    };
    assert_eq!(graph_of(vec![dup(), dup()]).err(), Some(SchemaErrorKind::Redefinition));
    let mut same_segment = ModelBuilder::new("B");
    same_segment.field(pk());
    same_segment.url_segment_name("as");
    assert_eq!(graph_of(vec![dup(), same_segment]).err(), Some(SchemaErrorKind::DuplicateUrlSegment));
    assert_eq!(graph_of(vec![ModelBuilder::new("NoKey")]).err(), Some(SchemaErrorKind::MissingPrimaryIndex));
    let mut e = ModelBuilder::new("E");
    e.field(pk());
    let mut f = FieldBuilder::new("kind");
    f.enum_type("Missing");
    e.field(f);
    assert_eq!(graph_of(vec![e]).err(), Some(SchemaErrorKind::UnknownEnum));
    let mut r = ModelBuilder::new("R");
    r.field(pk());
    r.relation(relation("x", "Nowhere", &["id"], &["id"]));
    assert_eq!(graph_of(vec![r]).err(), Some(SchemaErrorKind::DanglingRelation));
    let mut r = ModelBuilder::new("R");
    r.field(pk());
    r.relation(relation("x", "R", &["id"], &[]));
    assert_eq!(graph_of(vec![r]).err(), Some(SchemaErrorKind::RelationArityMismatch));
}

#[test]
fn opposite_relation_swaps_fields_and_references() {
    let mut user = ModelBuilder::new("User");
    user.field(pk());
    user.relation(relation("posts", "Post", &["id"], &["authorId"]));
    let mut post = ModelBuilder::new("Post");
    post.field(pk());
    let mut f = FieldBuilder::new("authorId");
    f.i64();
    post.field(f);
    post.relation(relation("author", "User", &["authorId"], &["id"]));
    let g = graph_of(vec![user, post]).ok().unwrap();
    let (m, r) = g.opposite_relation(&g.models[0].relations[0]).unwrap();
    assert_eq!(m.name, "Post");
    assert_eq!(r.name, "author");
    assert!(g.opposite_relation(&relation("x", "Post", &["zzz"], &["id"])).is_none());
}

#[test]
fn generated_type_names() {
    assert_eq!(without_infix("User", "Create", "posts", "Input"), "UserCreateWithoutPostsInput");
    assert_eq!(without_infix("User", "Create", "", "Input"), "UserCreateInput");
    assert_eq!(without_infix_no_model_name("UpdateNestedOne", "blog_posts", "Input"), "UpdateNestedOneWithoutBlogPostsInput");
    let mut user = ModelBuilder::new("User");
    user.field(pk());
    user.relation(relation("posts", "User", &["id"], &["id"]));
    let g = graph_of(vec![user]).ok().unwrap();
    let classes = model_outline(&g.models[0]);
    let names: Vec<(ClassKind, String)> = classes.iter().map(|c| (c.kind, c.name_suffix.clone())).collect();
    assert_eq!(names.len(), 6 + 4 * 2 + 3 * 2);
    assert_eq!(names[2], (ClassKind::IncludeInput, "Include".to_string()));
    assert_eq!(names[6], (ClassKind::CreateInput, "CreateInput".to_string()));
    assert_eq!(names[10], (ClassKind::CreateInput, "CreateWithoutPostsInput".to_string()));
    assert_eq!(names[14], (ClassKind::UpdateInput, "UpdateInput".to_string()));
    assert_eq!(names[19], (ClassKind::UpdateNestedOneInput, "UpdateNestedOneWithoutPostsInput".to_string()));
    let outline = Outline::new(&g);
    assert_eq!(outline.classes[0].kind, ClassKind::Enum);
    assert_eq!(outline.classes[0].fields, vec!["MALE".to_string(), "FEMALE".to_string()]);
    assert_eq!(outline.classes.len(), 1 + names.len());
}

#[test]
fn schema_types_and_classes() {
    assert!(matches!(field_type_from_path(&vec!["Int".to_string()], "E"), FieldType::I32));
    assert!(matches!(field_type_from_path(&vec!["Float".to_string()], "E"), FieldType::F64));
    assert!(matches!(field_type_from_path(&vec!["ObjectId".to_string()], "E"), FieldType::ObjectId));
    assert!(matches!(field_type_from_path(&vec!["Sex".to_string()], "Sex"), FieldType::Enum(ref e) if e == "Sex"));
    assert!(matches!(field_type_from_path(&vec!["a".to_string(), "String".to_string()], "a.String"), FieldType::Enum(_)));
    let names = |v: &[&str]| v.iter().map(|x| x.to_string()).collect::<Vec<String>>();
    assert_eq!(figure_out_class(&names(&["unique", "relation"])), FieldClass::Relation);
    assert_eq!(figure_out_class(&names(&["getter", "relation"])), FieldClass::Property);
    assert_eq!(figure_out_class(&names(&["unique"])), FieldClass::Field);
    let mut f = FieldBuilder::new("tags");
    install_field_type(&mut f, Arity::Array, true, false, FieldType::String);
    assert_eq!(f.availability, Availability::Optional);
    match &f.field_type {
        FieldType::Vec(inner) => {
            assert_eq!(inner.availability, Availability::Required);
            assert!(matches!(inner.field_type, FieldType::String));
        },
        _ => panic!("a list field"),
    }
    let mut f = FieldBuilder::new("n");
    install_field_type(&mut f, Arity::Scalar, false, true, FieldType::I64);
    assert_eq!(f.availability, Availability::Optional);
    default_decorator(Value::Int(4), &mut f);
    auth_identity_decorator(&mut f);
    assert!(f.auth_identity);
    assert!(f.default.is_some());
}

#[test]
fn field_builder_defaults_and_rules() {
    let mut f = FieldBuilder::new("x");
    assert_eq!(f.availability, Availability::Required);
    assert_eq!(f.read_rule, ReadRule::Read);
    f.internal();
    assert_eq!(f.read_rule, ReadRule::NoRead);
    assert_eq!(f.write_rule, WriteRule::NoWrite);
    f.write_once();
    assert_eq!(f.write_rule, WriteRule::WriteOnce);
    f.calculated();
    assert_eq!(f.write_rule, WriteRule::NoWrite);
    let mut g = GraphBuilder::new();
    g.add_enum("E", vec!["A".to_string()]);
    g.add_enum("E", vec!["B".to_string()]);
    assert_eq!(g.enums.len(), 1);
    assert_eq!(g.enums[0].values, vec!["B".to_string()]);
}

#[test]
fn error_labels_and_statuses() {
    let e = ActionError::simple(ErrorKind::KeysUnallowed, "m");
    assert_eq!(e.kind_label(), "KeysUnallowed");
    assert_eq!(e.status(), 400);
    assert_eq!(ActionError::simple(ErrorKind::Unauthorized, "m").status(), 401);
    assert_eq!(ActionError::simple(ErrorKind::ObjectNotFound, "m").status(), 404);
    assert_eq!(ActionError::simple(ErrorKind::InternalError, "m").status(), 500);
}

#[test]
fn app_context_settings() {
    let g = graph_of(vec![plain_model()]).ok().unwrap();
    let mut ctx = AppCtx::new(g, Program::Rust("1.80".to_string()));
    assert_eq!(ctx.entrance(), Entrance::APP);
    ctx.set_entrance(Entrance::CLI);
    assert_eq!(ctx.entrance(), Entrance::CLI);
    ctx.set_program(Program::Python("3.12".to_string()));
    assert!(matches!(ctx.program(), Program::Python(_)));
    ctx.set_ignore_callbacks(true);
    assert!(ctx.ignore_callbacks());
    ctx.insert_static_files("/s", "a");
    ctx.insert_static_files("/t", "b");
    ctx.insert_static_files("/s", "c");
    assert_eq!(ctx.static_files(), &vec![("/s".to_string(), "c".to_string()), ("/t".to_string(), "b".to_string())]);
    assert_eq!(ctx.graph().models.len(), 1);
}

#[test]
fn pages_and_first_rows() {
    let g = graph_of(vec![plain_model()]).ok().unwrap();
    let mut st = MemoryStore::new(&g);
    for i in 0..5 {
        let payload = vec![("age".to_string(), Value::Int(i))];
        assert!(st.create(&g, 0, &payload).is_ok());
    }
    let all = Where::And(vec![]);
    let page = st.find_page(&g, 0, &all, 1, 2).ok().unwrap();
    assert_eq!(page.len(), 2);
    assert_eq!(page[0][1], ("age".to_string(), Value::Int(1)));
    assert_eq!(page[1][1], ("age".to_string(), Value::Int(2)));
    assert_eq!(st.find_page(&g, 0, &all, 4, BATCH_SIZE).ok().unwrap().len(), 1);
    assert_eq!(st.find_page(&g, 0, &all, 9, 2).ok().unwrap().len(), 0);
    let first = st.find_first(&g, 0, &Where::Field(2, vec![Cond::Gt(2)])).ok().unwrap();
    assert_eq!(first[1], ("age".to_string(), Value::Int(3)));
    let none = st.find_first(&g, 0, &Where::Field(2, vec![Cond::Gt(9)])).err().unwrap();
    assert_eq!(none.kind, ErrorKind::ObjectNotFound);
    assert_eq!(first[0], ("id".to_string(), Value::Int(4)));
}

#[test]
fn graph_objects() {
    let g = graph_of(vec![plain_model()]).ok().unwrap();
    let o = g.new_object("Plain").ok().unwrap();
    assert!(o.is_new());
    let e = g.new_object("Nope").err().unwrap();
    assert_eq!(e.kind, ErrorKind::InvalidOperation);
    assert_eq!(e.message, "Model with name 'Nope' is not defined.");
    let o = g.create_object("Plain", &vec![("age".to_string(), Value::Int(3))]).ok().unwrap();
    assert_eq!(o.row(), vec![Value::Null, Value::Null, Value::Int(3)]);
    assert!(o.is_modified());
    assert!(g.create_object("Plain", &vec![]).is_err());
}

fn dict(pairs: Vec<(&str, Value)>) -> Value {
    Value::Dict(pairs.into_iter().map(|(k, v)| (k.to_string(), v)).collect())
}

#[test]
fn where_documents_compile_to_filters() {
    let g = graph_of(vec![plain_model()]).ok().unwrap();
    let fields = &g.models[0].fields;
    let row = |name: &str, age: i128| vec![Value::Int(1), s(name), Value::Int(age)];
    let q = dict(vec![("name", dict(vec![("startsWith", s("a"))])), ("age", dict(vec![("gte", Value::Int(18))]))]);
    let w = compile_where(fields, &q).ok().unwrap();
    assert!(w.matches(&row("ann", 20)));
    assert!(!w.matches(&row("bob", 20)));
    assert!(!w.matches(&row("ann", 10)));
    let bare = compile_where(fields, &dict(vec![("name", s("bob"))])).ok().unwrap();
    assert!(bare.matches(&row("bob", 1)));
    assert!(!bare.matches(&row("ann", 1)));
    let or = dict(vec![("OR", Value::List(vec![dict(vec![("name", s("bob"))]), dict(vec![("age", Value::Int(3))])]))]);
    let w = compile_where(fields, &or).ok().unwrap();
    assert!(w.matches(&row("bob", 9)));
    assert!(w.matches(&row("cy", 3)));
    assert!(!w.matches(&row("cy", 4)));
    let not = dict(vec![("NOT", dict(vec![("age", dict(vec![("in", Value::List(vec![Value::Int(1), Value::Int(2)]))]))]))]);
    let w = compile_where(fields, &not).ok().unwrap();
    assert!(w.matches(&row("x", 3)));
    assert!(!w.matches(&row("x", 2)));
    let empty_in = dict(vec![("age", dict(vec![("in", Value::List(vec![]))]))]);
    assert!(!compile_where(fields, &empty_in).ok().unwrap().matches(&row("x", 2)));
    let empty_not_in = dict(vec![("age", dict(vec![("notIn", Value::List(vec![]))]))]);
    assert!(compile_where(fields, &empty_not_in).ok().unwrap().matches(&row("x", 2)));
    let and_q = dict(vec![("AND", Value::List(vec![dict(vec![("name", s("x"))]), dict(vec![("age", Value::Int(2))])]))]);
    let w = compile_where(fields, &and_q).ok().unwrap();
    assert!(w.matches(&row("x", 2)));
    assert!(!w.matches(&row("x", 3)));
}

#[test]
fn malformed_where_documents_are_refused() {
    let mut m = plain_model();
    let mut f = FieldBuilder::new("hidden");
    f.string().writeonly();
    m.field(f);
    let g = graph_of(vec![m]).ok().unwrap();
    let fields = &g.models[0].fields;
    let err = compile_where(fields, &dict(vec![("nope", s("x"))])).err().unwrap();
    assert_eq!(err.kind, ErrorKind::UnexpectedInputValue);
    assert!(compile_where(fields, &dict(vec![("hidden", s("x"))])).is_err());
    assert!(compile_where(fields, &dict(vec![("age", dict(vec![("lt", s("x"))]))])).is_err());
    assert!(compile_where(fields, &dict(vec![("age", dict(vec![("near", Value::Int(1))]))])).is_err());
    assert!(compile_where(fields, &dict(vec![("AND", Value::Int(1))])).is_err());
    assert!(compile_where(fields, &s("name")).is_err());
    assert!(compile_where(fields, &dict(vec![])).is_ok());
}

#[test]
fn batch_reads_every_row_in_pages() {
    let g = graph_of(vec![plain_model()]).ok().unwrap();
    let mut st = MemoryStore::new(&g);
    for i in 0..400 {
        assert!(st.create(&g, 0, &vec![("age".to_string(), Value::Int(i % 7))]).is_ok());
    }
    let all = Where::And(vec![]);
    let rows = st.batch(&g, 0, &all).ok().unwrap();
    assert_eq!(rows.len(), 400);
    assert_eq!(rows[399][0], ("id".to_string(), Value::Int(400)));
    for i in 400..450 {
        assert!(st.create(&g, 0, &vec![("age".to_string(), Value::Int(i % 7))]).is_ok());
    }
    let rows = st.batch(&g, 0, &all).ok().unwrap();
    assert_eq!(rows.len(), 450);
    assert_eq!(rows[0][0], ("id".to_string(), Value::Int(1)));
    let sixes = st.batch(&g, 0, &Where::Field(2, vec![Cond::Equals(Value::Int(6))])).ok().unwrap();
    assert_eq!(sixes.len(), st.count(&g, 0, &Where::Field(2, vec![Cond::Equals(Value::Int(6))])));
    assert_eq!(sixes.len(), 64);
}

#[test]
fn string_encoded_types_need_their_strict_format() {
    let mut m = ModelBuilder::new("Formats");
    m.field(pk());
    let mut f = FieldBuilder::new("ref");
    f.object_id().optional();
    m.field(f);
    let mut f = FieldBuilder::new("day");
    f.date().optional();
    m.field(f);
    let mut f = FieldBuilder::new("at");
    f.datetime().optional();
    m.field(f);
    let g = graph_of(vec![m]).ok().unwrap();
    let model = &g.models[0];
    let good = vec![
        ("ref".to_string(), s("507f1f77bcf86cd799439011")),
        ("day".to_string(), s("2024-02-29")),
        ("at".to_string(), s("2024-02-29T12:30:05.123Z")),
    ];
    assert!(decode(model, &g.enums, &good, InputMode::Create).is_ok());
    let bad = vec![
        ("ref".to_string(), s("507f1f77bcf86cd79943901z")),
        ("day".to_string(), s("2024/02/29")),
        ("at".to_string(), s("2024-02-29 12:30:05")),
    ];
    let err = decode(model, &g.enums, &bad, InputMode::Create).err().unwrap();
    assert_eq!(
        err.errors,
        vec![
            ("ref".to_string(), "Value is invalid.".to_string()),
            ("day".to_string(), "Value is invalid.".to_string()),
            ("at".to_string(), "Value is invalid.".to_string()),
        ]
    );
    let wrong_tag = vec![("day".to_string(), Value::Int(20240229))];
    let err = decode(model, &g.enums, &wrong_tag, InputMode::Create).err().unwrap();
    assert_eq!(err.errors, vec![("day".to_string(), "Unexpected value type.".to_string())]);
}

#[test]
fn dictionary_fields_check_every_value() {
    let mut m = ModelBuilder::new("Dicts");
    m.field(pk());
    let mut item = FieldBuilder::new("");
    item.u8();
    let mut f = FieldBuilder::new("scores");
    f.map(item).optional();
    m.field(f);
    let g = graph_of(vec![m]).ok().unwrap();
    let model = &g.models[0];
    let good = vec![("scores".to_string(), Value::Dict(vec![("a".to_string(), Value::Int(1)), ("b".to_string(), Value::Int(255))]))];
    let plan = decode(model, &g.enums, &good, InputMode::Create).ok().unwrap();
    assert_eq!(plan.values[1], Some(Value::Dict(vec![("a".to_string(), Value::Int(1)), ("b".to_string(), Value::Int(255))])));
    let bad = vec![("scores".to_string(), Value::Dict(vec![("a".to_string(), Value::Int(256))]))];
    let err = decode(model, &g.enums, &bad, InputMode::Create).err().unwrap();
    assert_eq!(err.errors, vec![("scores".to_string(), "Unexpected value type.".to_string())]);
    let not_dict = vec![("scores".to_string(), Value::List(vec![]))];
    assert!(decode(model, &g.enums, &not_dict, InputMode::Create).is_err());
}

#[test]
fn order_by_gets_the_primary_key_as_tiebreaker() {
    let mut m = plain_model();
    let mut f = FieldBuilder::new("code");
    f.string().unique().optional();
    m.field(f);
    let g = graph_of(vec![m]).ok().unwrap();
    let fields = &g.models[0].fields;
    let by_age = vec![(2usize, SortOrder::Desc)];
    assert!(!superkey(fields, &by_age));
    assert_eq!(complete_order_by(fields, &by_age), vec![(2, SortOrder::Desc), (0, SortOrder::Asc)]);
    let by_code = vec![(3usize, SortOrder::Asc)];
    assert!(superkey(fields, &by_code));
    assert_eq!(complete_order_by(fields, &by_code), by_code);
    let by_id_desc = vec![(0usize, SortOrder::Desc)];
    assert_eq!(complete_order_by(fields, &by_id_desc), by_id_desc);
    assert_eq!(complete_order_by(fields, &vec![]), vec![(0, SortOrder::Asc)]);
}

#[test]
fn select_keeps_the_chosen_keys_in_order() {
    let out = vec![("id".to_string(), Value::Int(1)), ("name".to_string(), s("n")), ("age".to_string(), Value::Int(3))];
    let picked = select_fields(&out, &vec!["age".to_string(), "id".to_string(), "missing".to_string()]);
    assert_eq!(picked, vec![("id".to_string(), Value::Int(1)), ("age".to_string(), Value::Int(3))]);
    assert!(select_fields(&out, &vec![]).is_empty());
}

#[test]
fn write_once_fields_are_set_only_while_null() {
    let mut m = ModelBuilder::new("Once");
    m.field(pk());
    let mut f = FieldBuilder::new("token");
    f.string().optional().write_once();
    m.field(f);
    let g = graph_of(vec![m]).ok().unwrap();
    let mut st = MemoryStore::new(&g);
    assert!(st.create(&g, 0, &vec![]).is_ok());
    let by_id = vec![("id".to_string(), Value::Int(1))];
    let set = st.update(&g, 0, &by_id, &vec![("token".to_string(), s("t1"))]).ok().unwrap();
    assert_eq!(set[1], ("token".to_string(), s("t1")));
    let again = st.update(&g, 0, &by_id, &vec![("token".to_string(), s("t2"))]).err().unwrap();
    assert_eq!(again.kind, ErrorKind::InvalidOperation);
    let kept = st.find_unique(&g, 0, &by_id).ok().unwrap();
    assert_eq!(kept[1], ("token".to_string(), s("t1")));
}

#[test]
fn decimal_has_a_mysql_column_type() {
    assert!(matches!(default_database_type_mysql(&FieldType::Decimal), DatabaseType::Decimal { m: None, d: None }));
    assert!(matches!(FieldType::Decimal.to_database_type(SqlDialect::PostgreSQL), DatabaseType::Decimal { .. }));
}

#[test]
fn pipelines_accumulate_over_calls() {
    let mut f = FieldBuilder::new("x");
    let mut p1 = Pipeline::new();
    p1.str_append("-a");
    f.on_save(p1);
    f.on_save(Pipeline::new());
    let mut p2 = Pipeline::new();
    p2.str_append("-b");
    f.on_save(p2);
    assert_eq!(f.on_save_pipeline.items.len(), 2);
    assert_eq!(f.on_save_pipeline.process(&s("v")), Some(s("v-a-b")));
    let mut p3 = Pipeline::new();
    p3.str_prepend(">");
    f.on_set(p3);
    let mut p4 = Pipeline::new();
    p4.str_prepend(">");
    f.on_set(p4);
    assert_eq!(f.on_set_pipeline.process(&s("v")), Some(s(">>v")));
    let mut p5 = Pipeline::new();
    p5.str_append("!");
    f.on_output(p5);
    f.on_output(Pipeline::new());
    assert_eq!(f.on_output_pipeline.items.len(), 1);
}

#[test]
fn create_without_relation_inputs_leave_the_relation_out() {
    let mut user = ModelBuilder::new("User");
    user.field(pk());
    user.relation(relation("posts", "User", &["id"], &["id"]));
    let g = graph_of(vec![user]).ok().unwrap();
    let classes = model_outline(&g.models[0]);
    let create = classes.iter().find(|c| c.name_suffix == "CreateInput").unwrap();
    assert_eq!(create.fields, vec!["posts".to_string()]);
    let without = classes.iter().find(|c| c.name_suffix == "CreateWithoutPostsInput").unwrap();
    assert!(without.fields.is_empty());
    let update_without = classes.iter().find(|c| c.name_suffix == "UpdateWithoutPostsInput").unwrap();
    assert!(update_without.fields.is_empty());
    let nested = classes.iter().find(|c| c.name_suffix == "UpdateNestedOneInput").unwrap();
    assert_eq!(nested.kind, ClassKind::UpdateNestedOneInput);
    assert_eq!(nested.fields.len(), 8);
}

#[test]
fn more_schema_faults_are_reported() {
    let mut g = GraphBuilder::new();
    g.enums.push(Enum { name: "E".to_string(), values: vec![] });
    g.enums.push(Enum { name: "E".to_string(), values: vec![] });
    let mut m = ModelBuilder::new("M");
    m.field(pk());
    g.model(m);
    assert_eq!(Graph::new(g).err().map(|e| e.kind), Some(SchemaErrorKind::EnumRedefinition));

    let mut m = ModelBuilder::new("D");
    m.field(pk());
    let mut item = FieldBuilder::new("");
    item.string();
    let mut f = FieldBuilder::new("tags");
    f.vec(item).optional().default(Value::List(vec![s("a")]));
    m.field(f);
    assert_eq!(graph_of(vec![m]).err(), Some(SchemaErrorKind::IllegalDefault));

    let mut m = ModelBuilder::new("D");
    m.field(pk());
    let mut item = FieldBuilder::new("");
    item.string();
    let mut f = FieldBuilder::new("tags");
    f.vec(item).optional().default(Value::List(vec![]));
    m.field(f);
    assert!(graph_of(vec![m]).is_ok());

    let mut m = ModelBuilder::new("U");
    m.field(pk());
    let mut item = FieldBuilder::new("");
    item.string();
    let mut f = FieldBuilder::new("tags");
    f.vec(item).unique();
    m.field(f);
    assert_eq!(graph_of(vec![m]).err(), Some(SchemaErrorKind::InvalidUniqueKey));

    let mut a = ModelBuilder::new("A");
    a.field(pk());
    let mut f = FieldBuilder::new("bId");
    f.string();
    a.field(f);
    a.relation(relation("b", "B", &["bId"], &["id"]));
    let mut b = ModelBuilder::new("B");
    b.field(pk());
    assert_eq!(graph_of(vec![a, b]).err(), Some(SchemaErrorKind::RelationTypeMismatch));
    let mut a = ModelBuilder::new("A");
    a.field(pk());
    a.relation(relation("b", "B", &["missing"], &["id"]));
    let mut b = ModelBuilder::new("B");
    b.field(pk());
    assert_eq!(graph_of(vec![a, b]).err(), Some(SchemaErrorKind::RelationTypeMismatch));
}

#[test]
fn decimals_are_parsed_strictly() {
    let mut m = ModelBuilder::new("Money");
    m.field(pk());
    let mut f = FieldBuilder::new("amount");
    f.decimal().optional();
    m.field(f);
    let g = graph_of(vec![m]).ok().unwrap();
    let model = &g.models[0];
    for good in ["12", "-3.25", "0.5"] {
        assert!(decode(model, &g.enums, &vec![("amount".to_string(), s(good))], InputMode::Create).is_ok(), "{}", good);
    }
    for bad in ["", "-", "1.", ".5", "1.2.3", "1e5", "--1"] {
        let e = decode(model, &g.enums, &vec![("amount".to_string(), s(bad))], InputMode::Create).err().unwrap();
        assert_eq!(e.errors, vec![("amount".to_string(), "Value is invalid.".to_string())], "{}", bad);
    }
    assert!(decode(model, &g.enums, &vec![("amount".to_string(), Value::Int(7))], InputMode::Create).is_ok());
}

#[test]
fn relation_shapes_from_arity() {
    let mut r = relation("r", "", &[], &[]);
    assert!(install_relation_type(&mut r, Arity::Scalar, false, "User").is_ok());
    assert!(r.optional && !r.is_vec);
    assert_eq!(r.model, "User");
    assert!(install_relation_type(&mut r, Arity::Array, true, "Post").is_ok());
    assert!(r.is_vec);
    assert_eq!(r.model, "Post");
    assert_eq!(install_relation_type(&mut r, Arity::Array, false, "X"), Err(RelationShapeError::OptionalItems));
    assert_eq!(install_relation_type(&mut r, Arity::Dictionary, true, "X"), Err(RelationShapeError::Dictionary));
    assert_eq!(r.model, "Post");
}

fn iref(name: &str) -> InterfaceRef {
    InterfaceRef { name: name.to_string(), args: vec![] }
}

fn group(name: &str, actions: &[&str]) -> ActionGroupDeclaration {
    ActionGroupDeclaration {
        name: name.to_string(),
        actions: actions
            .iter()
            .map(|a| ActionDeclaration {
                name: a.to_string(),
                input: InterfaceRef { name: format!("{}Input", a), args: vec![iref("T")] },
                output: iref("Out"),
                input_fields: vec![("email".to_string(), iref("String"))],
            })
            .collect(),
    }
}

#[test]
fn action_groups_install_in_order_and_refuse_repeats() {
    let mut acts = CustomActions { defs: vec![] };
    assert!(install_action_groups(&mut acts, &vec![group("user", &["signIn", "signOut"]), group("post", &["signIn"])]).is_ok());
    let keys: Vec<(String, String)> = acts.defs.iter().map(|d| (d.group.clone(), d.name.clone())).collect();
    assert_eq!(keys, vec![
        ("user".to_string(), "signIn".to_string()),
        ("user".to_string(), "signOut".to_string()),
        ("post".to_string(), "signIn".to_string()),
    ]);
    assert_eq!(acts.defs[1].input.name, "signOutInput");
    assert_eq!(acts.defs[1].input.args[0].name, "T");
    assert_eq!(acts.defs[1].output.name, "Out");
    assert_eq!(acts.defs[2].input_fields[0].0, "email");
    assert_eq!(acts.defs[2].input_fields[0].1.name, "String");
    let e = install_action_groups(&mut acts, &vec![group("misc", &["a", "b"]), group("user", &["signOut", "late"])]).err().unwrap();
    assert_eq!(e.kind, ErrorKind::InvalidOperation);
    assert_eq!(acts.defs.len(), 5);
    assert_eq!(acts.defs[4].name, "b");
}

#[test]
fn a_page_is_not_spoiled_by_rows_outside_it() {
    let mut m = ModelBuilder::new("Out");
    m.field(pk());
    let mut f = FieldBuilder::new("n");
    let mut p = Pipeline::new();
    p.str_append("!");
    f.i64().optional().on_output(p);
    m.field(f);
    let g = graph_of(vec![m]).ok().unwrap();
    let mut st = MemoryStore::new(&g);
    assert!(st.create(&g, 0, &vec![]).is_ok());
    assert!(st.create(&g, 0, &vec![("n".to_string(), Value::Int(5))]).is_err());
    st.tables[0].push(vec![Value::Int(2), Value::Int(5)]);
    let all = Where::And(vec![]);
    assert_eq!(st.find_page(&g, 0, &all, 0, 1).ok().unwrap().len(), 1);
    assert_eq!(st.find_page(&g, 0, &all, 1, 1).err().unwrap().kind, ErrorKind::InternalError);
    assert!(st.batch(&g, 0, &all).is_err());
}

#[test]
fn found_objects_are_clean() {
    let g = graph_of(vec![plain_model()]).ok().unwrap();
    let mut st = MemoryStore::new(&g);
    assert!(st.create(&g, 0, &vec![("age".to_string(), Value::Int(3))]).is_ok());
    let o = st.find_unique_object(&g, 0, &vec![("id".to_string(), Value::Int(1))]).ok().unwrap();
    assert!(!o.is_new());
    assert!(!o.is_modified());
    assert_eq!(o.row(), vec![Value::Int(1), Value::Null, Value::Int(3)]);
}

#[test]
fn create_mode_round_trip() {
    let g = graph_of(vec![plain_model()]).ok().unwrap();
    let m = &g.models[0];
    let plan = InputPlan { values: vec![None, None, Some(Value::Int(9))] };
    let back = decode(m, &g.enums, &encode(&m.fields, &plan), InputMode::Create).ok().unwrap();
    assert_eq!(back.values, plan.values);
}

#[test]
fn aggregates_over_selected_rows() {
    let g = graph_of(vec![plain_model()]).ok().unwrap();
    let mut st = MemoryStore::new(&g);
    for age in [4, 1, 9, 6] {
        assert!(st.create(&g, 0, &vec![("age".to_string(), Value::Int(age))]).is_ok());
    }
    let a = st.aggregate(&g, 0, &Where::And(vec![]), 2).ok().unwrap();
    assert_eq!((a.count, a.sum, a.min, a.max), (4, 20, Some(1), Some(9)));
    let big = st.aggregate(&g, 0, &Where::Field(2, vec![Cond::Gt(4)]), 2).ok().unwrap();
    assert_eq!((big.count, big.sum, big.min, big.max), (2, 15, Some(6), Some(9)));
    let names = st.aggregate(&g, 0, &Where::And(vec![]), 1).ok().unwrap();
    assert_eq!((names.count, names.sum, names.min, names.max), (4, 0, None, None));
}

#[test]
fn group_by_counts_distinct_values_in_first_order() {
    let g = graph_of(vec![plain_model()]).ok().unwrap();
    let mut st = MemoryStore::new(&g);
    for age in [4, 1, 4, 9, 1, 4] {
        assert!(st.create(&g, 0, &vec![("age".to_string(), Value::Int(age))]).is_ok());
    }
    let groups = st.group_by(&g, 0, &Where::And(vec![]), 2);
    assert_eq!(groups, vec![(Value::Int(4), 3), (Value::Int(1), 2), (Value::Int(9), 1)]);
    let names = st.group_by(&g, 0, &Where::Field(2, vec![Cond::Lt(5)]), 1);
    assert_eq!(names, vec![(Value::Null, 5)]);
    assert!(st.group_by(&g, 0, &Where::Or(vec![]), 2).is_empty());
}

#[test]
fn dialects_from_schemes() {
    assert_eq!(dialect_of("mysql://root@h/db"), Some(SqlDialect::MySQL));
    assert_eq!(dialect_of("postgres://h/db"), Some(SqlDialect::PostgreSQL));
    assert_eq!(dialect_of("sqlite::memory:"), Some(SqlDialect::SQLite));
    assert_eq!(dialect_of("file:/tmp/a.db"), Some(SqlDialect::SQLite));
    assert_eq!(dialect_of("mssql://h"), Some(SqlDialect::MSSQL));
    assert_eq!(dialect_of("mongodb://h"), None);
}

#[test]
fn create_input_fields_are_optional_when_omissible() {
    let mut m = plain_model();
    let mut f = FieldBuilder::new("level");
    f.i32().default(Value::Int(1));
    m.field(f);
    let g = graph_of(vec![m]).ok().unwrap();
    let classes = model_outline(&g.models[0]);
    let create = classes.iter().find(|c| c.kind == ClassKind::CreateInput).unwrap();
    assert_eq!(create.fields, vec!["name".to_string(), "age".to_string(), "level".to_string()]);
    assert_eq!(create.optional, vec![true, false, true]);
    let data = classes.iter().find(|c| c.kind == ClassKind::DataOutput).unwrap();
    assert_eq!(data.fields, vec!["id".to_string(), "name".to_string(), "age".to_string(), "level".to_string()]);
    assert_eq!(data.optional, vec![false, true, false, false]);
    let update = classes.iter().find(|c| c.kind == ClassKind::UpdateInput).unwrap();
    assert!(update.optional.iter().all(|b| *b));
}

#[test]
fn through_relations_resolve_transitively() {
    let through = |name: &str, join: &str, foreign: &str| Relation {
        name: name.to_string(),
        model: join.to_string(),
        fields: vec![],
        references: vec![],
        through: Some(join.to_string()),
        local: None,
        foreign: Some(foreign.to_string()),
        is_vec: true,
        optional: false,
    };
    let mut a = ModelBuilder::new("A");
    a.field(pk());
    a.relation(through("x", "J1", "y"));
    let mut j1 = ModelBuilder::new("J1");
    j1.field(pk());
    j1.relation(through("y", "J2", "z"));
    let mut j2 = ModelBuilder::new("J2");
    j2.field(pk());
    let mut f = FieldBuilder::new("bId");
    f.i64();
    j2.field(f);
    j2.relation(relation("z", "B", &["bId"], &["id"]));
    let mut b = ModelBuilder::new("B");
    b.field(pk());
    b.relation(relation("w", "J2", &["id"], &["bId"]));
    let g = graph_of(vec![a, j1, j2, b]).ok().unwrap();
    let (m, r) = g.opposite_relation(&g.models[0].relations[0]).unwrap();
    assert_eq!(m.name, "B");
    assert_eq!(r.name, "w");
    let mut cyc = ModelBuilder::new("C");
    cyc.field(pk());
    cyc.relation(through("c", "C", "c"));
    let g = graph_of(vec![cyc]).ok().unwrap();
    assert!(g.opposite_relation(&g.models[0].relations[0]).is_none());
}

#[test]
fn properties_join_the_key_sets() {
    let mut m = plain_model();
    let prop = |name: &str, getter: bool, setter: bool| Property {
        name: name.to_string(),
        field_type: FieldType::String,
        availability: Availability::Optional,
        getter: if getter { Some(Pipeline::new()) } else { None },
        setter: if setter { Some(Pipeline::new()) } else { None },
    };
    m.property(prop("fullName", true, false));
    m.property(prop("password", false, true));
    let g = graph_of(vec![m]).ok().unwrap();
    let k = &g.models[0];
    assert_eq!(k.output_keys, vec!["id".to_string(), "name".to_string(), "age".to_string(), "fullName".to_string()]);
    assert_eq!(k.input_keys, vec!["name".to_string(), "age".to_string(), "password".to_string()]);
    let mut p = prop("tags", true, false);
    install_property_type(&mut p, Arity::Array, true, false, FieldType::String);
    assert_eq!(p.availability, Availability::Optional);
    assert!(matches!(p.field_type, FieldType::Vec(_)));
}
