use ram::generate::generate_models_v3;
use ram::lang::{Format, Lang, TranslateError, Type};
use ram::model::{normalize_models, Model, ModelType, NormalizeError};
use ram::schema::{ObjectOrReference, Schema, Spec};
use ram::util::{join_relative, model_name_from_ref, ref_file};

fn schema(ty: Option<&str>) -> Schema {
    Schema {
        schema_type: ty.map(|t| t.to_string()),
        format: None,
        description: None,
        nullable: None,
        read_only: None,
        ref_path: None,
        properties: vec![],
        items: None,
        additional_properties: None,
        extensions: vec![],
    }
}

fn reference(path: &str) -> Schema {
    let mut s = schema(None);
    s.ref_path = Some(path.to_string());
    s
}

fn object(props: Vec<(&str, Schema)>) -> Schema {
    let mut s = schema(Some("object"));
    s.properties = props.into_iter().map(|(k, v)| (k.to_string(), v)).collect();
    s
}

fn array_of(item: Schema) -> Schema {
    let mut s = schema(Some("array"));
    s.items = Some(Box::new(item));
    s
}

fn spec_of(schemas: Vec<(&str, Schema)>) -> Spec {
    Spec {
        component_schemas: schemas
            .into_iter()
            .map(|(k, v)| (k.to_string(), ObjectOrReference::Object(v)))
            .collect(),
        component_parameters: vec![],
        paths: vec![],
    }
}

fn type_entry(name: &str, target: &str) -> (String, Type) {
    (
        name.to_string(),
        Type {
            alias: vec![],
            format: vec![("default".to_string(), Format { schema_type: target.to_string() })],
        },
    )
}

fn lang_with(types: Vec<(String, Type)>, format: Vec<(&str, &str)>) -> Lang {
    Lang {
        path: "langs".to_string(),
        name: "test".to_string(),
        types,
        format: format.into_iter().map(|(k, v)| (k.to_string(), v.to_string())).collect(),
        additional_files: vec![],
        paths: vec![],
        templates: vec![],
        reserved: vec![],
    }
}

fn pet_schema() -> Schema {
    let mut owner = reference("#/components/schemas/Owner");
    owner.nullable = Some(true);
    object(vec![
        ("id", schema(Some("integer"))),
        ("name", schema(Some("string"))),
        ("tags", array_of(schema(Some("string")))),
        ("owner", owner),
    ])
}

fn rust_like_lang() -> Lang {
    lang_with(
        vec![type_entry("integer", "i64"), type_entry("string", "String")],
        vec![
            ("array", "Vec<{{type}}>"),
            ("nullable", "Option<{{type}}>"),
            ("classname", "{{value_pascalcase}}"),
        ],
    )
}

#[test]
fn primitive_schema_builds_primitive_node() {
    let m = Model::new("age", &schema(Some("integer")), "");
    assert!(matches!(m.model_type(), ModelType::Primitive));
    assert!(m.is_primitive && !m.is_object && !m.is_array);
    assert!(m.properties.is_empty());
    assert_eq!(m.schema_type, "integer");
}

#[test]
fn array_schema_builds_items() {
    let m = Model::new("tags", &array_of(reference("#/components/schemas/Tag")), "");
    assert!(matches!(m.model_type(), ModelType::Array));
    let items = m.items.expect("items are built");
    assert_eq!(items.name, "Tag");
    assert_eq!(items.def, "Tag");
    assert_eq!(items.schema_type, "object");
}

#[test]
fn absent_type_is_object() {
    let m = Model::new("Thing", &object(vec![]), "Thing");
    assert!(matches!(m.model_type(), ModelType::Object));
    let untyped = Model::new("x", &schema(None), "");
    assert_eq!(untyped.schema_type, "object");
    assert!(untyped.properties.is_empty());
}

#[test]
fn derived_views_partition_children() {
    let mut with_dates = object(vec![
        ("born", schema(Some("string"))),
        ("seen", schema(Some("string"))),
        ("friend", reference("#/components/schemas/Pet")),
        ("list", array_of(schema(Some("integer")))),
    ]);
    with_dates.properties[0].1.format = Some("date".to_string());
    with_dates.properties[1].1.format = Some("date-time".to_string());
    let mut extra = object(vec![("more", schema(Some("boolean")))]);
    extra.additional_properties = None;
    with_dates.additional_properties = Some(ObjectOrReference::Object(Box::new(extra)));
    let m = Model::new("Pet", &with_dates, "Pet");
    assert!(m.has_date);
    assert!(m.has_datetime);
    assert_eq!(m.object_properties.len(), 1);
    assert_eq!(m.object_properties[0].def, "Pet");
    assert_eq!(m.array_properties.len(), 1);
    assert_eq!(m.primitive_properties.len(), 3);
    assert_eq!(m.primitive_properties[2].name, "more");
}

#[test]
fn pet_translates_to_rust_types() {
    let m = Model::new("Pet", &pet_schema(), "Pet");
    let t = m.translate(&rust_like_lang()).ok().expect("translation succeeds");
    let types: Vec<(&str, &str)> = t
        .properties
        .iter()
        .map(|p| (p.name.as_str(), p.schema_type.as_str()))
        .collect();
    assert_eq!(
        types,
        vec![
            ("id", "i64"),
            ("name", "String"),
            ("tags", "Vec<String>"),
            ("owner", "Option<Owner>"),
        ]
    );
    assert_eq!(t.schema_type, "Pet");
}

#[test]
fn identity_translation_keeps_type_labels() {
    let lang = lang_with(
        vec![type_entry("integer", "integer"), type_entry("string", "string")],
        vec![],
    );
    let mut s = object(vec![("id", schema(Some("integer"))), ("born", schema(Some("string")))]);
    s.properties[1].1.format = Some("date".to_string());
    s.properties[0].1.nullable = Some(true);
    let m = Model::new("P", &s, "P");
    let t = m.translate(&lang).ok().expect("translation succeeds");
    assert_eq!(t.properties[0].schema_type, "integer");
    assert_eq!(t.properties[1].schema_type, "string");
    assert!(t.has_date);
    assert!(!t.has_datetime);
}

#[test]
fn unknown_primitive_is_an_error() {
    let m = Model::new("x", &schema(Some("decimal")), "");
    match m.translate(&rust_like_lang()) {
        Err(TranslateError::UnknownPrimitive { field, schema_type }) => {
            assert_eq!(field, "x");
            assert_eq!(schema_type, "decimal");
        }
        _ => panic!("expected an unknown primitive"),
    }
}

#[test]
fn missing_array_formatter_is_an_error() {
    let lang = lang_with(vec![type_entry("string", "String")], vec![]);
    let m = Model::new("tags", &array_of(schema(Some("string"))), "");
    assert!(matches!(m.translate(&lang), Err(TranslateError::MissingArrayFormatter { .. })));
}

#[test]
fn array_without_items_is_an_error() {
    let m = Model::new("tags", &schema(Some("array")), "");
    assert!(matches!(m.translate(&rust_like_lang()), Err(TranslateError::MissingItems { .. })));
}

#[test]
fn per_format_entry_and_default_fallback() {
    let mut int_type = type_entry("integer", "i64").1;
    int_type.format.push(("int32".to_string(), Format { schema_type: "i32".to_string() }));
    int_type.alias.push("int".to_string());
    let lang = lang_with(vec![("integer".to_string(), int_type)], vec![]);
    assert_eq!(lang.translate_primitive("integer", "int32"), Some("i32".to_string()));
    assert_eq!(lang.translate_primitive("integer", "int64"), Some("i64".to_string()));
    assert_eq!(lang.translate_primitive("int", "default"), Some("i64".to_string()));
    assert_eq!(lang.translate_primitive("number", "default"), None);
}

#[test]
fn mutual_references_normalize_to_top_level_models() {
    let spec = spec_of(vec![
        ("A", object(vec![("b", reference("#/components/schemas/B"))])),
        ("B", object(vec![("a", reference("#/components/schemas/A"))])),
    ]);
    let models = generate_models_v3(&spec, &vec![]);
    assert_eq!(models.len(), 2);
    let b_top = models[1].deep_clone();
    let normalized = normalize_models(models).ok().expect("normalization succeeds");
    let linked = &normalized[0].object_properties[0];
    assert_eq!(linked.def, b_top.def);
    assert_eq!(linked.name, b_top.name);
    assert_eq!(linked.schema_type, b_top.schema_type);
    assert_eq!(linked.properties.len(), b_top.properties.len());
    assert_eq!(linked.properties[0].name, "a");
    assert_eq!(linked.object_properties.len(), 1);
    assert_eq!(linked.object_properties[0].name, "a");
    assert_eq!(linked.object_properties[0].def, "A");
}

#[test]
fn normalizing_twice_changes_nothing() {
    let spec = spec_of(vec![
        ("A", object(vec![("b", reference("#/components/schemas/B")), ("bs", array_of(reference("#/components/schemas/B")))])),
        ("B", object(vec![("n", schema(Some("integer")))])),
    ]);
    let models = generate_models_v3(&spec, &vec![]);
    let top: Vec<Model> = models.iter().map(|m| m.deep_clone()).collect();
    let once = normalize_models(models).ok().unwrap();
    let again = once[0].deep_clone().normalize(&top).ok().unwrap();
    assert_eq!(again.object_properties[0].name, once[0].object_properties[0].name);
    assert_eq!(again.object_properties[0].properties.len(), 1);
    let items = again.array_properties[0].items.as_ref().unwrap();
    assert_eq!(items.name, "B");
    assert_eq!(items.properties.len(), 1);
}

#[test]
fn dangling_reference_is_an_error() {
    let spec = spec_of(vec![("A", object(vec![("b", reference("#/components/schemas/Missing"))]))]);
    let models = generate_models_v3(&spec, &vec![]);
    match normalize_models(models) {
        Err(NormalizeError::MissingModel(name)) => assert_eq!(name, "Missing"),
        _ => panic!("expected a dangling reference"),
    }
}

#[test]
fn document_schemas_shadow_external_ones() {
    let spec = spec_of(vec![("A", object(vec![]))]);
    let external = vec![
        ("A".to_string(), schema(Some("string"))),
        ("C".to_string(), schema(Some("integer"))),
    ];
    let models = generate_models_v3(&spec, &external);
    assert_eq!(models.len(), 2);
    assert_eq!(models[0].name, "A");
    assert_eq!(models[0].schema_type, "object");
    assert_eq!(models[1].name, "C");
    assert_eq!(models[1].def, "C");
}

#[test]
fn reference_helpers() {
    assert_eq!(model_name_from_ref("#/components/schemas/Pet"), Some("Pet".to_string()));
    assert_eq!(model_name_from_ref("Pet"), None);
    assert_eq!(ref_file("defs/pet.yaml#/Pet"), Some("defs/pet.yaml".to_string()));
    assert_eq!(ref_file("#/components/schemas/Pet"), None);
    assert_eq!(join_relative("examples/openapi", "defs/pet.yaml"), "examples/openapi/defs/pet.yaml");
    assert_eq!(join_relative("examples/openapi/", "pet.yaml"), "examples/openapi/pet.yaml");
    assert_eq!(join_relative("examples", "/abs/pet.yaml"), "/abs/pet.yaml");
    assert_eq!(join_relative("", "pet.yaml"), "pet.yaml");
}

#[test]
fn array_without_items_cannot_be_normalized() {
    let spec = spec_of(vec![("A", object(vec![("list", schema(Some("array")))]))]);
    let models = generate_models_v3(&spec, &vec![]);
    match normalize_models(models) {
        Err(NormalizeError::MissingItems(name)) => assert_eq!(name, "list"),
        _ => panic!("expected an array without items"),
    }
}

#[test]
fn reference_without_slash_is_an_error() {
    let m = Model::new("pet", &reference("Pet"), "");
    match m.translate(&rust_like_lang()) {
        Err(TranslateError::BadReference { field, ref_path }) => {
            assert_eq!(field, "pet");
            assert_eq!(ref_path, "Pet");
        }
        _ => panic!("expected a bad reference"),
    }
}

#[test]
fn empty_collections_normalize_and_translate() {
    let models = generate_models_v3(&spec_of(vec![]), &vec![]);
    assert!(models.is_empty());
    let normalized = normalize_models(models).ok().unwrap();
    assert!(normalized.is_empty());
    let translated = ram::generate::translate_models(&rust_like_lang(), normalized).ok().unwrap();
    assert!(translated.is_empty());
}

#[test]
fn reserved_names_are_escaped_in_translation() {
    let mut lang = rust_like_lang();
    lang.reserved.push("type".to_string());
    lang.format.push(("reserved".to_string(), "r#{{value}}".to_string()));
    let m = Model::new("P", &object(vec![("type", schema(Some("string"))), ("id", schema(Some("integer")))]), "P");
    let t = m.translate(&lang).ok().unwrap();
    assert_eq!(t.properties[0].name, "r#type");
    assert_eq!(t.properties[1].name, "id");
}
