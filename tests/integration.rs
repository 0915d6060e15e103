use teo_core::builders::{FieldBuilder, GraphBuilder, ModelBuilder};
use teo_core::error::ErrorKind;
use teo_core::field::Pipeline;
use teo_core::filter::Where;
use teo_core::query::compile_where;
use teo_core::schema::Graph;
use teo_core::store::MemoryStore;
use teo_core::value::Value;

fn s(v: &str) -> Value {
    Value::Str(v.to_string())
}

fn entries(pairs: Vec<(&str, Value)>) -> Vec<(String, Value)> {
    pairs.into_iter().map(|(k, v)| (k.to_string(), v)).collect()
}

fn get<'a>(out: &'a [(String, Value)], key: &str) -> Option<&'a Value> {
    out.iter().find(|(k, _)| k == key).map(|(_, v)| v)
}

fn is_object_id(v: &Value) -> bool {
    match v {
        Value::Str(s) => s.len() == 24 && s.chars().all(|c| c.is_ascii_hexdigit()),
        _ => false,
    }
}

fn id_field() -> FieldBuilder {
    let mut f = FieldBuilder::new("id");
    f.primary().required().readonly().object_id().assigned_by_database();
    f
}

fn make_graph() -> Graph {
    let mut g = GraphBuilder::new();
    g.add_enum("Sex", vec!["MALE".to_string(), "FEMALE".to_string()]);

    let mut m = ModelBuilder::new("Simple");
    m.field(id_field());
    let mut f = FieldBuilder::new("uniqueString");
    f.unique().required().string();
    m.field(f);
    let mut f = FieldBuilder::new("requiredString");
    f.required().string();
    m.field(f);
    let mut f = FieldBuilder::new("optionalString");
    f.optional().string();
    m.field(f);
    let mut f = FieldBuilder::new("optionalEnum");
    f.optional().enum_type("Sex");
    m.field(f);
    let mut f = FieldBuilder::new("requiredWithDefault");
    f.required().i8().default(Value::Int(2));
    m.field(f);
    let mut f = FieldBuilder::new("readonly");
    f.readonly().required().bool().default(Value::Bool(true));
    m.field(f);
    let mut f = FieldBuilder::new("writeonly");
    f.writeonly().required().bool().default(Value::Bool(false));
    m.field(f);
    g.model(m);

    let mut m = ModelBuilder::new("Compound");
    m.field(id_field());
    for name in ["one", "two"] {
        let mut f = FieldBuilder::new(name);
        f.required().string().compound_unique("one_two");
        m.field(f);
    }
    let mut f = FieldBuilder::new("three");
    f.required().string();
    m.field(f);
    g.model(m);

    let mut m = ModelBuilder::new("List");
    m.field(id_field());
    let mut item = FieldBuilder::new("");
    let mut p = Pipeline::new();
    p.str_append("-suffix");
    item.string().on_save(p);
    let mut f = FieldBuilder::new("listOne");
    f.required().vec(item);
    m.field(f);
    g.model(m);

    match Graph::new(g) {
        Ok(graph) => graph,
        Err(_) => panic!("schema is valid"),
    }
}

fn model_index(g: &Graph, segment: &str) -> usize {
    let m = g.model_with_url_segment_name(segment).expect("segment exists");
    g.models.iter().position(|x| x.name == m.name).unwrap()
}

fn setup() -> (Graph, MemoryStore) {
    let g = make_graph();
    let store = MemoryStore::new(&g);
    (g, store)
}

#[test]
fn create_with_valid_data_creates_entry() {
    let (g, mut st) = setup();
    let m = model_index(&g, "simples");
    let out = st.create(&g, m, &entries(vec![("uniqueString", s("1")), ("requiredString", s("1"))])).ok().unwrap();
    assert_eq!(get(&out, "uniqueString"), Some(&s("1")));
    assert_eq!(get(&out, "requiredString"), Some(&s("1")));
    assert!(is_object_id(get(&out, "id").unwrap()));
}

#[test]
fn create_with_required_field_omitted_cannot_create() {
    let (g, mut st) = setup();
    let m = model_index(&g, "simples");
    let err = st.create(&g, m, &entries(vec![("uniqueString", s("1"))])).err().unwrap();
    assert!(err.status() >= 400 && err.status() < 500);
    assert_eq!(err.kind_label(), "ValidationError");
    assert_eq!(err.message, "Value is required.");
    assert_eq!(err.errors, vec![("requiredString".to_string(), "Value is required.".to_string())]);
}

#[test]
fn create_with_duplicated_unique_value_cannot_create() {
    let (g, mut st) = setup();
    let m = model_index(&g, "simples");
    let payload = entries(vec![("uniqueString", s("1")), ("requiredString", s("1"))]);
    assert!(st.create(&g, m, &payload).is_ok());
    let err = st.create(&g, m, &payload).err().unwrap();
    assert!(err.status() >= 400 && err.status() < 500);
    assert_eq!(err.kind_label(), "ValidationError");
    assert_eq!(err.message, "Input is not valid.");
    assert_eq!(err.errors, vec![("uniqueString".to_string(), "Unique value duplicated.".to_string())]);
}

#[test]
fn create_with_optional_data_creates_entry() {
    let (g, mut st) = setup();
    let m = model_index(&g, "simples");
    let out = st
        .create(&g, m, &entries(vec![("uniqueString", s("1")), ("requiredString", s("1")), ("optionalString", s("1"))]))
        .ok()
        .unwrap();
    assert_eq!(get(&out, "uniqueString"), Some(&s("1")));
    assert_eq!(get(&out, "requiredString"), Some(&s("1")));
    assert_eq!(get(&out, "optionalString"), Some(&s("1")));
    assert!(is_object_id(get(&out, "id").unwrap()));
}

#[test]
fn create_with_correct_enum_value_creates_entry() {
    let (g, mut st) = setup();
    let m = model_index(&g, "simples");
    let out = st
        .create(&g, m, &entries(vec![("uniqueString", s("1")), ("requiredString", s("1")), ("optionalEnum", s("MALE"))]))
        .ok()
        .unwrap();
    assert_eq!(get(&out, "uniqueString"), Some(&s("1")));
    assert_eq!(get(&out, "requiredString"), Some(&s("1")));
    assert_eq!(get(&out, "optionalEnum"), Some(&s("MALE")));
    assert!(is_object_id(get(&out, "id").unwrap()));
}

#[test]
fn create_with_invalid_enum_choice_value_cannot_create() {
    let (g, mut st) = setup();
    let m = model_index(&g, "simples");
    let err = st
        .create(&g, m, &entries(vec![("uniqueString", s("1")), ("requiredString", s("1")), ("optionalEnum", s("PUCK"))]))
        .err()
        .unwrap();
    assert!(err.status() >= 400 && err.status() < 500);
    assert_eq!(err.kind_label(), "ValidationError");
    assert_eq!(err.message, "Enum value is unexpected.");
    assert_eq!(err.errors, vec![("optionalEnum".to_string(), "Enum value is unexpected.".to_string())]);
}

#[test]
fn create_with_required_omitted_but_default_can_create() {
    let (g, mut st) = setup();
    let m = model_index(&g, "simples");
    let out = st.create(&g, m, &entries(vec![("uniqueString", s("1")), ("requiredString", s("1"))])).ok().unwrap();
    assert_eq!(get(&out, "requiredWithDefault"), Some(&Value::Int(2)));
    assert!(is_object_id(get(&out, "id").unwrap()));
}

#[test]
fn create_default_field_use_provided_value_if_exists() {
    let (g, mut st) = setup();
    let m = model_index(&g, "simples");
    let out = st
        .create(&g, m, &entries(vec![("uniqueString", s("1")), ("requiredString", s("1")), ("requiredWithDefault", Value::Int(8))]))
        .ok()
        .unwrap();
    assert_eq!(get(&out, "requiredWithDefault"), Some(&Value::Int(8)));
    assert!(is_object_id(get(&out, "id").unwrap()));
}

#[test]
fn create_cannot_accept_readonly_value() {
    let (g, mut st) = setup();
    let m = model_index(&g, "simples");
    let err = st
        .create(&g, m, &entries(vec![("uniqueString", s("1")), ("requiredString", s("1")), ("readonly", Value::Bool(false))]))
        .err()
        .unwrap();
    assert!(err.status() >= 400 && err.status() < 500);
    assert_eq!(err.kind_label(), "KeysUnallowed");
    assert_eq!(err.message, "Unallowed keys detected.");
}

#[test]
fn wont_output_writeonly_value() {
    let (g, mut st) = setup();
    let m = model_index(&g, "simples");
    let out = st
        .create(&g, m, &entries(vec![("uniqueString", s("2")), ("requiredString", s("2")), ("writeonly", Value::Bool(true))]))
        .ok()
        .unwrap();
    assert_eq!(get(&out, "writeonly"), None);
}

#[test]
fn find_unique_can_find_by_primary_key() {
    let (g, mut st) = setup();
    let m = model_index(&g, "simples");
    let created = st.create(&g, m, &entries(vec![("uniqueString", s("1")), ("requiredString", s("1"))])).ok().unwrap();
    let id = get(&created, "id").unwrap().deep_clone();
    let out = st.find_unique(&g, m, &entries(vec![("id", id.deep_clone())])).ok().unwrap();
    assert_eq!(get(&out, "uniqueString"), Some(&s("1")));
    assert_eq!(get(&out, "requiredString"), Some(&s("1")));
    assert_eq!(get(&out, "id"), Some(&id));
    assert!(is_object_id(&id));
}

#[test]
fn find_unique_can_find_by_single_unique_key() {
    let (g, mut st) = setup();
    let m = model_index(&g, "simples");
    assert!(st.create(&g, m, &entries(vec![("uniqueString", s("1")), ("requiredString", s("1"))])).is_ok());
    let out = st.find_unique(&g, m, &entries(vec![("uniqueString", s("1"))])).ok().unwrap();
    assert_eq!(get(&out, "uniqueString"), Some(&s("1")));
    assert_eq!(get(&out, "requiredString"), Some(&s("1")));
    assert!(is_object_id(get(&out, "id").unwrap()));
}

#[test]
fn find_unique_can_find_by_compound_unique_key() {
    let (g, mut st) = setup();
    let m = model_index(&g, "compounds");
    assert!(st.create(&g, m, &entries(vec![("one", s("1")), ("two", s("2")), ("three", s("3"))])).is_ok());
    let out = st.find_unique(&g, m, &entries(vec![("one", s("1")), ("two", s("2"))])).ok().unwrap();
    assert_eq!(get(&out, "one"), Some(&s("1")));
    assert_eq!(get(&out, "two"), Some(&s("2")));
    assert_eq!(get(&out, "three"), Some(&s("3")));
    assert!(is_object_id(get(&out, "id").unwrap()));
}

#[test]
fn find_many_can_find_all() {
    let (g, mut st) = setup();
    let m = model_index(&g, "compounds");
    assert!(st.create(&g, m, &entries(vec![("one", s("1")), ("two", s("2")), ("three", s("3"))])).is_ok());
    assert!(st.create(&g, m, &entries(vec![("one", s("one")), ("two", s("two")), ("three", s("three"))])).is_ok());
    let all = Where::And(vec![]);
    assert_eq!(st.count(&g, m, &all), 2);
    let rows = st.find_many(&g, m, &all).ok().unwrap();
    assert_eq!(rows.len(), 2);
    assert_eq!(get(&rows[0], "one"), Some(&s("1")));
    assert_eq!(get(&rows[0], "two"), Some(&s("2")));
    assert_eq!(get(&rows[0], "three"), Some(&s("3")));
    assert!(is_object_id(get(&rows[0], "id").unwrap()));
    assert_eq!(get(&rows[1], "one"), Some(&s("one")));
    assert_eq!(get(&rows[1], "two"), Some(&s("two")));
    assert_eq!(get(&rows[1], "three"), Some(&s("three")));
    assert!(is_object_id(get(&rows[1], "id").unwrap()));
}

#[test]
fn find_many_can_find_all_filtered_by_where() {
    let (g, mut st) = setup();
    let m = model_index(&g, "compounds");
    assert!(st.create(&g, m, &entries(vec![("one", s("1")), ("two", s("2")), ("three", s("3"))])).is_ok());
    assert!(st.create(&g, m, &entries(vec![("one", s("one")), ("two", s("two")), ("three", s("three"))])).is_ok());
    let query = Value::Dict(vec![("one".to_string(), Value::Dict(vec![("equals".to_string(), s("one"))]))]);
    let w = compile_where(&g.models[m].fields, &query).ok().unwrap();
    assert_eq!(st.count(&g, m, &w), 1);
    let rows = st.find_many(&g, m, &w).ok().unwrap();
    assert_eq!(rows.len(), 1);
    assert_eq!(get(&rows[0], "one"), Some(&s("one")));
    assert_eq!(get(&rows[0], "two"), Some(&s("two")));
    assert_eq!(get(&rows[0], "three"), Some(&s("three")));
    assert!(is_object_id(get(&rows[0], "id").unwrap()));
}

#[test]
fn update_can_update_valid_contents() {
    let (g, mut st) = setup();
    let m = model_index(&g, "simples");
    let created = st.create(&g, m, &entries(vec![("uniqueString", s("1")), ("requiredString", s("1"))])).ok().unwrap();
    let id = get(&created, "id").unwrap().deep_clone();
    let out = st
        .update(&g, m, &entries(vec![("id", id)]), &entries(vec![("uniqueString", s("5")), ("requiredString", s("5"))]))
        .ok()
        .unwrap();
    assert_eq!(get(&out, "uniqueString"), Some(&s("5")));
    assert_eq!(get(&out, "requiredString"), Some(&s("5")));
    assert!(is_object_id(get(&out, "id").unwrap()));
}

#[test]
fn update_can_set_optional_value_back_to_null() {
    let (g, mut st) = setup();
    let m = model_index(&g, "simples");
    let created = st
        .create(&g, m, &entries(vec![("uniqueString", s("1")), ("requiredString", s("1")), ("optionalString", s("5"))]))
        .ok()
        .unwrap();
    let id = get(&created, "id").unwrap().deep_clone();
    let out = st
        .update(
            &g,
            m,
            &entries(vec![("id", id.deep_clone())]),
            &entries(vec![("uniqueString", s("5")), ("requiredString", s("5")), ("optionalString", Value::Null)]),
        )
        .ok()
        .unwrap();
    assert_eq!(get(&out, "uniqueString"), Some(&s("5")));
    assert_eq!(get(&out, "requiredString"), Some(&s("5")));
    assert_eq!(get(&out, "optionalString"), None);
    assert!(is_object_id(get(&out, "id").unwrap()));
    let again = st.find_unique(&g, m, &entries(vec![("id", id)])).ok().unwrap();
    assert_eq!(get(&again, "optionalString"), None);
}

#[test]
fn delete_can_delete_record() {
    let (g, mut st) = setup();
    let m = model_index(&g, "simples");
    let created = st.create(&g, m, &entries(vec![("uniqueString", s("1")), ("requiredString", s("1"))])).ok().unwrap();
    let id = get(&created, "id").unwrap().deep_clone();
    let out = st.delete(&g, m, &entries(vec![("id", id)])).ok().unwrap();
    assert_eq!(get(&out, "uniqueString"), Some(&s("1")));
    assert_eq!(get(&out, "requiredString"), Some(&s("1")));
    assert!(is_object_id(get(&out, "id").unwrap()));
    assert_eq!(st.count(&g, m, &Where::And(vec![])), 0);
}

#[test]
fn create_vec_works_with_inner_pipeline() {
    let (g, mut st) = setup();
    let m = model_index(&g, "lists");
    let out = st.create(&g, m, &entries(vec![("listOne", Value::List(vec![s("1"), s("2")]))])).ok().unwrap();
    assert_eq!(get(&out, "listOne"), Some(&Value::List(vec![s("1-suffix"), s("2-suffix")])));
    assert!(is_object_id(get(&out, "id").unwrap()));
}

#[test]
fn created_row_reads_back_by_unique_filter() {
    let (g, mut st) = setup();
    let m = model_index(&g, "simples");
    let created = st
        .create(&g, m, &entries(vec![("uniqueString", s("7")), ("requiredString", s("x")), ("optionalString", s("y"))]))
        .ok()
        .unwrap();
    let by_unique = st.find_unique(&g, m, &entries(vec![("uniqueString", s("7"))])).ok().unwrap();
    assert_eq!(by_unique, created);
    let id = get(&created, "id").unwrap().deep_clone();
    let by_id = st.find_unique(&g, m, &entries(vec![("id", id)])).ok().unwrap();
    assert_eq!(by_id, created);
}

#[test]
fn find_unique_refuses_non_unique_filter() {
    let (g, mut st) = setup();
    let m = model_index(&g, "simples");
    assert!(st.create(&g, m, &entries(vec![("uniqueString", s("1")), ("requiredString", s("1"))])).is_ok());
    let err = st.find_unique(&g, m, &entries(vec![("requiredString", s("1"))])).err().unwrap();
    assert_eq!(err.kind, ErrorKind::InvalidOperation);
    let c = model_index(&g, "compounds");
    let err = st.find_unique(&g, c, &entries(vec![("one", s("1"))])).err().unwrap();
    assert_eq!(err.kind, ErrorKind::InvalidOperation);
    let err = st.find_unique(&g, m, &entries(vec![("uniqueString", s("nope"))])).err().unwrap();
    assert_eq!(err.kind, ErrorKind::ObjectNotFound);
    assert_eq!(err.status(), 404);
}

#[test]
fn compound_unique_conflict_is_refused() {
    let (g, mut st) = setup();
    let m = model_index(&g, "compounds");
    assert!(st.create(&g, m, &entries(vec![("one", s("1")), ("two", s("2")), ("three", s("3"))])).is_ok());
    assert!(st.create(&g, m, &entries(vec![("one", s("1")), ("two", s("9")), ("three", s("3"))])).is_ok());
    let err = st.create(&g, m, &entries(vec![("one", s("1")), ("two", s("2")), ("three", s("4"))])).err().unwrap();
    assert_eq!(err.kind, ErrorKind::ValidationError);
    assert_eq!(err.errors[0].1, "Unique value duplicated.");
}

#[test]
fn update_to_taken_unique_value_is_refused() {
    let (g, mut st) = setup();
    let m = model_index(&g, "simples");
    assert!(st.create(&g, m, &entries(vec![("uniqueString", s("a")), ("requiredString", s("1"))])).is_ok());
    assert!(st.create(&g, m, &entries(vec![("uniqueString", s("b")), ("requiredString", s("1"))])).is_ok());
    let err = st
        .update(&g, m, &entries(vec![("uniqueString", s("b"))]), &entries(vec![("uniqueString", s("a"))]))
        .err()
        .unwrap();
    assert_eq!(err.message, "Input is not valid.");
    let same = st
        .update(&g, m, &entries(vec![("uniqueString", s("b"))]), &entries(vec![("uniqueString", s("b"))]))
        .ok()
        .unwrap();
    assert_eq!(get(&same, "uniqueString"), Some(&s("b")));
}

#[test]
fn update_runs_on_save_only_on_changed_fields() {
    let (g, mut st) = setup();
    let m = model_index(&g, "lists");
    let created = st.create(&g, m, &entries(vec![("listOne", Value::List(vec![s("1")]))])).ok().unwrap();
    let id = get(&created, "id").unwrap().deep_clone();
    let same = st.update(&g, m, &entries(vec![("id", id.deep_clone())]), &entries(vec![])).ok().unwrap();
    assert_eq!(get(&same, "listOne"), Some(&Value::List(vec![s("1-suffix")])));
    let changed = st
        .update(&g, m, &entries(vec![("id", id)]), &entries(vec![("listOne", Value::List(vec![s("x")]))]))
        .ok()
        .unwrap();
    assert_eq!(get(&changed, "listOne"), Some(&Value::List(vec![s("x-suffix")])));
}

#[test]
fn integer_narrowing_must_fit() {
    let (g, mut st) = setup();
    let m = model_index(&g, "simples");
    let err = st
        .create(&g, m, &entries(vec![("uniqueString", s("1")), ("requiredString", s("1")), ("requiredWithDefault", Value::Int(300))]))
        .err()
        .unwrap();
    assert_eq!(err.errors, vec![("requiredWithDefault".to_string(), "Unexpected value type.".to_string())]);
    let err = st
        .create(&g, m, &entries(vec![("uniqueString", s("1")), ("requiredString", Value::Bool(true))]))
        .err()
        .unwrap();
    assert_eq!(err.errors, vec![("requiredString".to_string(), "Unexpected value type.".to_string())]);
    let err = st.create(&g, m, &entries(vec![("unknown", s("1"))])).err().unwrap();
    assert_eq!(err.kind, ErrorKind::KeysUnallowed);
}

#[test]
fn object_ids_come_from_the_identifier_sequence() {
    let (g, mut st) = setup();
    let m = model_index(&g, "compounds");
    let first = st.create(&g, m, &entries(vec![("one", s("1")), ("two", s("2")), ("three", s("3"))])).ok().unwrap();
    assert_eq!(get(&first, "id"), Some(&s("000000000000000000000001")));
    let l = model_index(&g, "lists");
    let second = st.create(&g, l, &entries(vec![("listOne", Value::List(vec![]))])).ok().unwrap();
    assert_eq!(get(&second, "id"), Some(&s("000000000000000000000002")));
}
