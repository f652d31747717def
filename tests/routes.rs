use ram::config::Config;
use ram::generate::generate_resources_v3;
use ram::lang::{AddFile, Lang};
use ram::param::get_params_operation;
use ram::resolve::{document_ref_paths, ref_files_of, SchemaResolver};
use ram::resource::{group_resources, GroupingStrategy, Resource};
use ram::schema::{MediaType, ObjectOrReference, Operation, Parameter, PathItem, Response, Schema, Spec};
use ram::template::render_template;

fn schema(ty: Option<&str>) -> Schema {
    Schema {
        schema_type: ty.map(|t| t.to_string()),
        format: None,
        description: None,
        nullable: None,
        read_only: None,
        ref_path: None,
        properties: vec![],
        items: None,
        additional_properties: None,
        extensions: vec![],
    }
}

fn reference(path: &str) -> Schema {
    let mut s = schema(None);
    s.ref_path = Some(path.to_string());
    s
}

fn param(name: &str, location: &str) -> Parameter {
    Parameter {
        name: name.to_string(),
        location: location.to_string(),
        required: Some(true),
        schema: Some(schema(Some("string"))),
    }
}

fn operation(id: Option<&str>, tags: Vec<&str>) -> Operation {
    Operation {
        tags: tags.into_iter().map(|t| t.to_string()).collect(),
        summary: None,
        description: None,
        operation_id: id.map(|i| i.to_string()),
        parameters: vec![],
        request_body: None,
        responses: vec![],
    }
}

fn path_item() -> PathItem {
    PathItem {
        get: None,
        put: None,
        post: None,
        delete: None,
        options: None,
        head: None,
        patch: None,
        trace: None,
        parameters: vec![],
    }
}

fn json_response(s: Schema) -> Response {
    Response {
        content: vec![(
            "application/json".to_string(),
            MediaType { schema: Some(ObjectOrReference::Object(s)) },
        )],
    }
}

fn sample_paths() -> Vec<(String, PathItem)> {
    let mut pets = path_item();
    let mut list = operation(Some("listPets"), vec!["pets"]);
    list.responses.push(("200".to_string(), json_response(reference("#/components/schemas/Pets"))));
    pets.get = Some(list);
    pets.post = Some(operation(None, vec!["pets"]));
    let mut one = path_item();
    one.parameters.push(ObjectOrReference::Object(param("petId", "path")));
    one.get = Some(operation(Some("showPetById"), vec![]));
    one.delete = Some(operation(Some("deletePet"), vec!["admin"]));
    let mut more = path_item();
    more.put = Some(operation(Some("updatePets"), vec!["pets"]));
    vec![
        ("/pets".to_string(), pets),
        ("/pets/{petId}".to_string(), one),
        ("/more".to_string(), more),
    ]
}

fn lang_with(format: Vec<(&str, &str)>) -> Lang {
    Lang {
        path: "langs/rust".to_string(),
        name: "rust".to_string(),
        types: vec![],
        format: format.into_iter().map(|(k, v)| (k.to_string(), v.to_string())).collect(),
        additional_files: vec![AddFile {
            filename: Some("mod.rs".to_string()),
            template: "mod.hbs".to_string(),
            file_in: None,
            path: None,
        }],
        paths: vec![("root".to_string(), "out".to_string()), ("model".to_string(), "src/model".to_string())],
        templates: vec![("model".to_string(), "model.hbs".to_string())],
        reserved: vec!["type".to_string()],
    }
}

fn count(groups: &[ram::resource::ResourceGroup]) -> usize {
    groups.iter().map(|g| g.resources.len()).sum()
}

#[test]
fn nothing_strategy_keeps_every_operation() {
    let groups = group_resources(&sample_paths(), GroupingStrategy::Nothing, &vec![]);
    assert_eq!(groups.len(), 1);
    assert_eq!(groups[0].name, "");
    assert_eq!(count(&groups), 5);
    let methods: Vec<&str> = groups[0].resources.iter().map(|r| r.method.as_str()).collect();
    assert_eq!(methods, vec!["GET", "POST", "GET", "DELETE", "PUT"]);
}

#[test]
fn path_strategy_groups_by_uri() {
    let groups = group_resources(&sample_paths(), GroupingStrategy::Path, &vec![]);
    let names: Vec<&str> = groups.iter().map(|g| g.name.as_str()).collect();
    assert_eq!(names, vec!["/pets", "/pets/{petId}", "/more"]);
    assert_eq!(count(&groups), 5);
}

#[test]
fn first_tag_strategy_drops_untagged_and_merges_keys() {
    let groups = group_resources(&sample_paths(), GroupingStrategy::FirstTag, &vec![]);
    let names: Vec<&str> = groups.iter().map(|g| g.name.as_str()).collect();
    assert_eq!(names, vec!["pets", "admin"]);
    assert_eq!(groups[0].resources.len(), 3);
    assert_eq!(groups[0].resources[2].name, "updatePets");
    assert_eq!(count(&groups), 4);
}

#[test]
fn operation_strategy_drops_operations_without_id() {
    let groups = generate_resources_v3(
        &Spec { component_schemas: vec![], component_parameters: vec![], paths: sample_paths() },
        GroupingStrategy::Operation,
    );
    let names: Vec<&str> = groups.iter().map(|g| g.name.as_str()).collect();
    assert_eq!(names, vec!["listPets", "showPetById", "deletePet", "updatePets"]);
}

#[test]
fn resources_take_path_params_and_json_responses() {
    let groups = group_resources(&sample_paths(), GroupingStrategy::Nothing, &vec![]);
    let list = &groups[0].resources[0];
    assert_eq!(list.responses.len(), 1);
    assert_eq!(list.responses[0].0, "200");
    assert_eq!(list.responses[0].1.def, "Pets");
    let show = &groups[0].resources[2];
    assert_eq!(show.path_params.len(), 1);
    assert_eq!(show.path_params[0].name, "petId");
    assert!(show.path_params[0].required);
    assert!(show.query_params.is_empty());
}

#[test]
fn absent_component_parameter_is_omitted() {
    let mut op = operation(Some("find"), vec![]);
    op.parameters.push(ObjectOrReference::Ref { ref_path: "#/components/parameters/missing".to_string() });
    op.parameters.push(ObjectOrReference::Ref { ref_path: "#/components/parameters/limit".to_string() });
    op.parameters.push(ObjectOrReference::Object(param("q", "query")));
    let comps = vec![("limit".to_string(), ObjectOrReference::Object(param("limit", "query")))];
    let query = get_params_operation(&op, "query", &comps);
    let names: Vec<&str> = query.iter().map(|p| p.name.as_str()).collect();
    assert_eq!(names, vec!["limit", "q"]);
    assert!(get_params_operation(&op, "path", &comps).is_empty());
}

#[test]
fn path_level_params_come_first() {
    let mut op = operation(Some("show"), vec![]);
    op.parameters.push(ObjectOrReference::Object(param("verbose", "query")));
    let r = Resource::new("/x", "GET", &op, &vec![], vec![], vec![]);
    assert_eq!(r.query_params.len(), 1);
    let mut item = path_item();
    item.parameters.push(ObjectOrReference::Object(param("page", "query")));
    item.get = Some(op);
    let groups = group_resources(&vec![("/x".to_string(), item)], GroupingStrategy::Path, &vec![]);
    let names: Vec<&str> = groups[0].resources[0].query_params.iter().map(|p| p.name.as_str()).collect();
    assert_eq!(names, vec!["page", "verbose"]);
}

#[test]
fn templates_render_placeholders() {
    let ctx = vec![("type".to_string(), "String".to_string()), ("name".to_string(), "tags".to_string())];
    assert_eq!(render_template("Vec<{{type}}>", &ctx), Some("Vec<String>".to_string()));
    assert_eq!(render_template("{{ name }}: {{type}}", &ctx), Some("tags: String".to_string()));
    assert_eq!(render_template("{{missing}}", &ctx), None);
    assert_eq!(render_template("open {{type", &ctx), None);
    assert_eq!(render_template("", &ctx), Some(String::new()));
}

#[test]
fn formatters_fall_back_to_the_value() {
    let lang = lang_with(vec![
        ("classname", "{{value_pascalcase}}"),
        ("reserved", "r#{{value}}"),
        ("const", "{{value_screamingsnakecase}}"),
        ("snake", "{{value_snakecase}}"),
        ("lower", "{{value_lowercase}}-{{value_uppercase}}"),
        ("broken", "{{nothing}}"),
    ]);
    assert_eq!(lang.format("classname", "pet_owner"), "PetOwner");
    assert_eq!(lang.format("const", "petOwner"), "PET_OWNER");
    assert_eq!(lang.format("snake", "PetOwner"), "pet_owner");
    assert_eq!(lang.format("lower", "Ab"), "ab-AB");
    assert_eq!(lang.format("undefined", "same"), "same");
    assert_eq!(lang.format("broken", "same"), "same");
    assert_eq!(lang.format("reserved", "type"), "r#type");
    assert_eq!(lang.format("reserved", "kind"), "kind");
    assert_eq!(lang.translate_modelname("pet_owner"), "PetOwner");
}

#[test]
fn path_params_are_formatted() {
    let lang = lang_with(vec![("pathparam", "<{{value}}>")]);
    assert_eq!(lang.format_path("/pets/{petId}/toys/{toy_id}"), "/pets/<petId>/toys/<toy_id>");
    assert_eq!(lang.format_path("/pets"), "/pets");
    let plain = lang_with(vec![]);
    assert_eq!(plain.format_path("/pets/{petId}"), "/pets/{petId}");
}

#[test]
fn resource_translation_formats_path() {
    let lang = lang_with(vec![("pathparam", ":{{value}}")]);
    let r = Resource::new("/pets/{id}", "GET", &operation(Some("get"), vec![]), &vec![], vec![], vec![]);
    let t = r.translate(&lang).ok().expect("translation succeeds");
    assert_eq!(t.path, "/pets/:id");
}

#[test]
fn lang_paths_and_files() {
    let mut lang = lang_with(vec![]);
    assert_eq!(lang.default_path("model"), Some("src/model".to_string()));
    assert_eq!(lang.default_path("nothing"), None);
    assert_eq!(lang.default_template("model"), Some("langs/rust/model.hbs".to_string()));
    assert_eq!(lang.additional_files_relative()[0].template, "langs/rust/mod.hbs");
    lang.paths.clear();
    lang.set_default_root();
    assert_eq!(lang.default_path("root"), Some(String::new()));
    lang.set_default_root();
    assert_eq!(lang.paths.len(), 1);
}

#[test]
fn config_overrides_and_files() {
    let lang = lang_with(vec![("classname", "{{value}}")]);
    let cfg = Config {
        path: "conf".to_string(),
        lang: "rust".to_string(),
        paths: vec![("model".to_string(), "generated".to_string())],
        helpers: vec![("classname".to_string(), "C{{value}}".to_string())],
        files: vec![AddFile { filename: None, template: "extra.hbs".to_string(), file_in: None, path: None }],
        grouping_strategy: None,
    };
    assert_eq!(cfg.get_path("model", &lang), Some("generated".to_string()));
    assert_eq!(cfg.get_path("root", &lang), Some("out".to_string()));
    let files = cfg.get_files(Some(&lang));
    let templates: Vec<&str> = files.iter().map(|f| f.template.as_str()).collect();
    assert_eq!(templates, vec!["langs/rust/mod.hbs", "conf/extra.hbs"]);
    assert_eq!(cfg.get_files(None).len(), 1);
    assert_eq!(cfg.lang_file(), "rust/rust.yaml");
    let mut custom = lang_with(vec![("classname", "{{value}}")]);
    cfg.apply_helpers(&mut custom);
    assert_eq!(custom.format("classname", "Pet"), "CPet");
    let by_path = Config { lang: "langs/go.yaml".to_string(), ..cfg };
    assert_eq!(by_path.lang_file(), "conf/langs/go.yaml");
}

#[test]
fn resolver_queues_each_file_once() {
    let mut pet = schema(Some("object"));
    pet.properties.push(("owner".to_string(), reference("people.yaml#/Owner")));
    pet.properties.push(("tag".to_string(), reference("tags.yaml#/Tag")));
    pet.properties.push(("other".to_string(), reference("people.yaml#/Other")));
    pet.properties.push(("local".to_string(), reference("#/components/schemas/Local")));
    let spec = Spec {
        component_schemas: vec![("Pet".to_string(), ObjectOrReference::Object(pet))],
        component_parameters: vec![],
        paths: vec![],
    };
    let refs = document_ref_paths(&spec);
    assert_eq!(refs.len(), 4);
    assert_eq!(ref_files_of(&refs), vec!["people.yaml".to_string(), "tags.yaml".to_string()]);
    let mut resolver = SchemaResolver::new(&spec, "api");
    let first = resolver.next_request().expect("a file to read");
    assert_eq!((first.base.as_str(), first.file.as_str()), ("api", "people.yaml"));
    let mut owner = schema(Some("object"));
    owner.properties.push(("tag".to_string(), reference("../common/tags.yaml#/Tag")));
    resolver.absorb(
        "api",
        vec![("Owner".to_string(), owner), ("Other".to_string(), schema(Some("string")))],
    );
    let second = resolver.next_request().expect("a file to read");
    assert_eq!(second.file, "tags.yaml");
    resolver.absorb("api", vec![("Tag".to_string(), schema(Some("string"))), ("Owner".to_string(), schema(None))]);
    let third = resolver.next_request().expect("a file to read");
    assert_eq!(third.file, "../common/tags.yaml");
    resolver.absorb("common", vec![("Tag".to_string(), schema(Some("integer")))]);
    assert!(resolver.next_request().is_none());
    let names: Vec<&str> = resolver.schemas.iter().map(|s| s.0.as_str()).collect();
    assert_eq!(names, vec!["Owner", "Other", "Tag"]);
    assert_eq!(resolver.schemas[2].1.schema_type, Some("string".to_string()));
}

#[test]
fn empty_paths_give_no_groups() {
    assert!(group_resources(&vec![], GroupingStrategy::Nothing, &vec![]).is_empty());
    let mut resolver = SchemaResolver::new(
        &Spec { component_schemas: vec![], component_parameters: vec![], paths: vec![] },
        "api",
    );
    assert!(resolver.next_request().is_none());
}
