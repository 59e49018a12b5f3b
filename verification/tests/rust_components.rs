use editor::rust_source::parse_source_items;
use editor::rust_components::{
    crate_name_for, default_value, entity_script_lifecycle, package_name, parameter_summary,
    scan_project_files, source_module_path, type_label, EntityScriptLifecycle, FnInput,
    FunctionItem, GenericArg, ItemVisibility, ModuleItem, NamedField, TypePathSegment,
    RustComponentRegistry, RustEcsScan, ScannedFile, SourceItem, StructFields, StructItem,
    TypeShape,
};

fn seg(ident: &str) -> TypePathSegment {
    TypePathSegment { ident: ident.to_string(), args: None }
}

fn generic(ident: &str, args: Vec<TypeShape>) -> TypePathSegment {
    TypePathSegment {
        ident: ident.to_string(),
        args: Some(args.into_iter().map(GenericArg::Type).collect()),
    }
}

fn path(names: &[&str]) -> TypeShape {
    TypeShape::Path(names.iter().map(|n| seg(n)).collect())
}

fn reference(mutable: bool, inner: TypeShape) -> TypeShape {
    TypeShape::Reference(mutable, Box::new(inner))
}

fn function(name: &str, visibility: ItemVisibility, inputs: Vec<TypeShape>) -> FunctionItem {
    FunctionItem {
        name: name.to_string(),
        visibility,
        is_async: false,
        is_const: false,
        is_unsafe: false,
        has_abi: false,
        is_variadic: false,
        has_generics: false,
        inputs: inputs.into_iter().map(FnInput::Typed).collect(),
        output: None,
    }
}

fn component(name: &str, derives: &[&str], fields: StructFields) -> SourceItem {
    SourceItem::Struct(StructItem {
        name: name.to_string(),
        derives: derives.iter().map(|d| d.to_string()).collect(),
        reflect_args: Vec::new(),
        fields,
    })
}

fn in_entity() -> TypeShape {
    TypeShape::Path(vec![generic("In", vec![path(&["Entity"])])])
}

fn file(module: &[&str], source_path: &str, items: Vec<SourceItem>) -> ScannedFile {
    ScannedFile {
        module: module.iter().map(|m| m.to_string()).collect(),
        source_path: source_path.to_string(),
        items,
    }
}

fn public() -> ItemVisibility {
    ItemVisibility::Public
}

fn crate_visible() -> ItemVisibility {
    ItemVisibility::Restricted(Some("crate".to_string()))
}

const ENTITIES_SOURCE: &str = r#"
    #[derive(Component, Debug)]
    pub struct Movement { pub velocity: Vec2, pub facing: i32 }
    #[derive(bevy::prelude::Component)]
    pub struct LocalPlayer;
    #[derive(Resource)]
    pub struct Settings;
    pub fn move_players(mut players: Query<&mut Movement>, time: Res<Time>) {}
    pub fn on_start(In(entity): In<Entity>, mut commands: Commands) {}
    pub fn update(In(entity): In<Entity>, time: Res<Time>) {}
"#;

#[test]
fn discovers_named_and_marker_components() {
    let items = parse_source_items(ENTITIES_SOURCE).unwrap();
    let crate_name = crate_name_for(&Some("[package]\nname = \"sample-game\"\nversion = \"0.1.0\"\n".to_string()));
    assert_eq!(crate_name, "sample_game");
    let module = source_module_path(vec!["world".to_string()], "entities");
    let scan = scan_project_files(&crate_name, &vec![file_from(module, "res://src/world/entities.rs", items)]);

    let components = &scan.components;
    assert_eq!(components.len(), 2);
    assert_eq!(components[0].type_path, "sample_game::world::entities::LocalPlayer");
    assert_eq!(components[1].fields[0].default_value, "0.0, 0.0");
    assert_eq!(scan.systems.len(), 1);
    assert_eq!(scan.systems[0].system_path, "sample_game::world::entities::move_players");
    assert_eq!(scan.systems[0].query_summary(), "Query<&mut Movement>");
    assert_eq!(scan.systems[0].access_summary(), "Res<Time>");
    assert_eq!(scan.entity_scripts.len(), 2);
    assert_eq!(scan.entity_scripts[0].lifecycle, EntityScriptLifecycle::Start);
    assert!(scan.entity_scripts.iter().all(|script| script.valid));
}

fn file_from(module: Vec<String>, source_path: &str, items: Vec<SourceItem>) -> ScannedFile {
    ScannedFile { module, source_path: source_path.to_string(), items }
}

#[test]
fn lifecycle_names_are_diagnosed_even_without_bevy_system_parameters() {
    let items = parse_source_items("fn update(entity: Entity) {}\n").unwrap();
    let scan = scan_project_files("sample_game", &vec![file(&[], "res://src/main.rs", items)]);
    assert_eq!(scan.entity_scripts.len(), 1);
    assert!(!scan.entity_scripts[0].valid);
    assert!(scan.entity_scripts[0]
        .diagnostic
        .as_deref()
        .is_some_and(|message| message.contains("must accept In<Entity>")));
    assert!(scan.systems.is_empty());
}

#[test]
fn nested_systems_require_crate_visibility_and_supported_signatures() {
    let items = parse_source_items(
        r#"
            fn private_system(query: Query<Entity>) {}
            pub(crate) fn valid_system(query: Query<Entity>) {}
            pub(crate) async fn async_system(time: Res<Time>) {}
            pub(crate) fn input_system(entity: In<Entity>, time: Res<Time>) {}
            pub(crate) fn returning_system(time: Res<Time>) -> bool { true }
        "#,
    )
    .unwrap();
    let scan = scan_project_files("sample_game", &vec![file(&["systems", "player"], "res://src/systems/player.rs", items)]);
    let systems = &scan.systems;
    assert_eq!(systems.len(), 5);
    assert!(systems
        .iter()
        .find(|system| system.name == "valid_system")
        .is_some_and(|system| system.valid));
    for name in ["private_system", "async_system", "input_system", "returning_system"] {
        assert!(systems
            .iter()
            .find(|system| system.name == name)
            .is_some_and(|system| !system.valid && system.diagnostic.is_some()));
    }
    let private = systems.iter().find(|system| system.name == "private_system").unwrap();
    assert_eq!(
        private.diagnostic.as_deref(),
        Some("res://src/systems/player.rs: nested system `private_system` must be pub(crate)")
    );
}

#[test]
fn hand_built_items_scan_like_parsed_ones() {
    let items = vec![
        component(
            "Movement",
            &["Component", "Debug"],
            StructFields::Named(vec![
                NamedField { name: Some("velocity".to_string()), ty: path(&["Vec2"]) },
                NamedField { name: Some("facing".to_string()), ty: path(&["i32"]) },
            ]),
        ),
        component("LocalPlayer", &["Component"], StructFields::Unit),
        SourceItem::Function(function(
            "move_players",
            public(),
            vec![
                TypeShape::Path(vec![generic("Query", vec![reference(true, path(&["Movement"]))])]),
                TypeShape::Path(vec![generic("Res", vec![path(&["Time"])])]),
            ],
        )),
        SourceItem::Function(function("on_start", public(), vec![in_entity(), path(&["Commands"])])),
    ];
    let scan = scan_project_files("game", &vec![file(&[], "res://src/main.rs", items)]);
    assert_eq!(scan.components.len(), 2);
    assert_eq!(scan.systems[0].query_summary(), "Query<&mut Movement>");
    assert_eq!(scan.entity_scripts.len(), 1);
    let _ = crate_visible();
}

#[test]
fn parsed_items_keep_their_shapes() {
    assert!(parse_source_items("fn broken( {").is_none());
    let items = parse_source_items(
        r#"
            #[derive(Component, Reflect, Default)]
            #[reflect(Component, Default)]
            pub struct Health(pub u32, (i32, bool));
            mod inner { pub(in crate::a) fn f(&self, x: &Option<&'static str>) -> () {} }
            mod outer;
            const LIMIT: u8 = 3;
        "#,
    )
    .unwrap();
    assert_eq!(items.len(), 4);
    match &items[0] {
        SourceItem::Struct(s) => {
            assert_eq!(s.name, "Health");
            assert_eq!(s.derives, vec!["Component", "Reflect", "Default"]);
            assert_eq!(s.reflect_args, vec!["Component , Default"]);
            match &s.fields {
                StructFields::Unnamed(types) => {
                    assert_eq!(type_label(&types[0]), "u32");
                    assert_eq!(type_label(&types[1]), "(i32, bool)");
                }
                _ => panic!("a tuple struct"),
            }
        }
        _ => panic!("a struct"),
    }
    match &items[1] {
        SourceItem::Module(m) => {
            assert_eq!(m.name, "inner");
            match &m.items[0] {
                SourceItem::Function(f) => {
                    assert_eq!(f.name, "f");
                    assert!(matches!(&f.visibility, ItemVisibility::Restricted(Some(last)) if last == "a"));
                    assert!(matches!(f.inputs[0], FnInput::Receiver));
                    match &f.inputs[1] {
                        FnInput::Typed(ty) => assert_eq!(type_label(ty), "&Option<&str>"),
                        FnInput::Receiver => panic!("a typed input"),
                    }
                    assert_eq!(f.output.as_ref().map(type_label), Some("()".to_string()));
                }
                _ => panic!("a function"),
            }
        }
        _ => panic!("an inline module"),
    }
    assert!(matches!(items[2], SourceItem::Other));
    assert!(matches!(items[3], SourceItem::Other));
}

#[test]
fn duplicate_paths_keep_the_first_file_and_lists_are_sorted() {
    let a = file(&[], "res://src/main.rs", vec![component("Zed", &["Component"], StructFields::Unit), component("Alpha", &["Component"], StructFields::Unit)]);
    let b = file(&[], "res://src/other.rs", vec![component("Zed", &["Component"], StructFields::Unnamed(vec![path(&["u8"])]))]);
    let scan = scan_project_files("game", &vec![a, b]);
    let paths: Vec<&str> = scan.components.iter().map(|c| c.type_path.as_str()).collect();
    assert_eq!(paths, vec!["game::Alpha", "game::Zed"]);
    assert_eq!(scan.components[1].source_path, "res://src/main.rs");
}

#[test]
fn inline_modules_extend_the_path() {
    let inner = SourceItem::Module(ModuleItem {
        name: "inner".to_string(),
        items: vec![component("Tag", &["Component", "Reflect", "Default"], StructFields::Unnamed(vec![path(&["f32"]), path(&["Handle"])]))],
    });
    let scan = scan_project_files("game", &vec![file(&["level"], "res://src/level.rs", vec![inner])]);
    assert_eq!(scan.components[0].type_path, "game::level::inner::Tag");
    assert!(!scan.components[0].reflection_ready);
    assert_eq!(scan.components[0].fields[0].name, "0");
    assert_eq!(scan.components[0].fields[0].default_value, "0.0");
    assert!(scan.components[0].fields[0].editable);
    assert_eq!(scan.components[0].fields[1].name, "1");
    assert!(!scan.components[0].fields[1].editable);
    let placed = scan.components[0].instantiate();
    assert_eq!(placed.fields.len(), 2);
    assert_eq!(placed.fields[0].value, "0.0");
}

#[test]
fn reflection_needs_derives_and_a_reflect_attribute() {
    let item = SourceItem::Struct(StructItem {
        name: "Health".to_string(),
        derives: vec!["Component".to_string(), "Reflect".to_string(), "Default".to_string()],
        reflect_args: vec!["Component , Default".to_string()],
        fields: StructFields::Unit,
    });
    let scan = scan_project_files("game", &vec![file(&[], "res://src/main.rs", vec![item])]);
    assert!(scan.components[0].reflection_ready);
}

#[test]
fn types_are_written_as_the_inspector_shows_them() {
    assert_eq!(type_label(&path(&["bevy", "math", "Vec3"])), "bevy::math::Vec3");
    assert_eq!(type_label(&reference(false, path(&["str"]))), "&str");
    assert_eq!(type_label(&TypeShape::Tuple(vec![path(&["u8"]), path(&["bool"])])), "(u8, bool)");
    assert_eq!(type_label(&TypeShape::Tuple(Vec::new())), "()");
    assert_eq!(type_label(&TypeShape::Unsupported), "Unsupported");
    let with_lifetime = TypeShape::Path(vec![TypePathSegment {
        ident: "Cow".to_string(),
        args: Some(vec![GenericArg::Other, GenericArg::Type(path(&["str"]))]),
    }]);
    assert_eq!(type_label(&with_lifetime), "Cow<str>");
    let only_lifetime = TypeShape::Path(vec![TypePathSegment { ident: "Ref".to_string(), args: Some(vec![GenericArg::Other]) }]);
    assert_eq!(type_label(&only_lifetime), "Ref");
}

#[test]
fn default_values_follow_the_short_type_name() {
    assert_eq!(default_value("bool"), Some("false".to_string()));
    assert_eq!(default_value("std::primitive::u64"), Some("0".to_string()));
    assert_eq!(default_value("String"), Some(String::new()));
    assert_eq!(default_value("bevy::color::Color"), Some("1.0, 1.0, 1.0, 1.0".to_string()));
    assert_eq!(default_value("Vec<f32>"), None);
}

#[test]
fn parameter_summaries_pick_kinds_by_short_name() {
    let params = vec![
        "bevy::prelude::Query<&Transform>".to_string(),
        "Res<Time>".to_string(),
        "Local<u32>".to_string(),
    ];
    let kinds = vec!["Query".to_string()];
    assert_eq!(parameter_summary(&params, &kinds), "bevy::prelude::Query<&Transform>");
    assert_eq!(parameter_summary(&params, &vec!["Res".to_string(), "Local".to_string()]), "Res<Time>, Local<u32>");
    assert_eq!(parameter_summary(&params, &vec!["Commands".to_string()]), "None");
}

#[test]
fn lifecycle_names_and_module_paths() {
    assert_eq!(entity_script_lifecycle("on_fixed_update"), Some(EntityScriptLifecycle::FixedUpdate));
    assert_eq!(entity_script_lifecycle("post_update"), Some(EntityScriptLifecycle::PostUpdate));
    assert_eq!(entity_script_lifecycle("tick"), None);
    assert_eq!(source_module_path(vec!["a".to_string()], "mod"), vec!["a".to_string()]);
    assert_eq!(source_module_path(Vec::new(), "main"), Vec::<String>::new());
    assert_eq!(package_name("[package]\nname = \"my-game\"\n"), Some("my_game".to_string()));
    assert_eq!(package_name("[workspace]\n"), None);
    assert_eq!(crate_name_for(&None), "game");
}

#[test]
fn the_registry_moves_on_only_when_something_changed() {
    let mut registry = RustComponentRegistry::default();
    let scan = || scan_project_files("game", &vec![file(&[], "res://src/main.rs", vec![component("A", &["Component"], StructFields::Unit)])]);
    registry.apply_scan(scan(), 7);
    assert_eq!(registry.revision, 1);
    assert!(registry.get("game::A").is_some());
    assert!(registry.get("game::B").is_none());
    registry.apply_scan(scan(), 7);
    assert_eq!(registry.revision, 1);
    registry.apply_scan(scan(), 8);
    assert_eq!(registry.revision, 2);
    registry.apply_scan(RustEcsScan { components: Vec::new(), systems: Vec::new(), entity_scripts: Vec::new() }, 8);
    assert_eq!(registry.revision, 3);
    assert!(registry.get_system("game::anything").is_none());
}

#[test]
fn parsed_functions_keep_their_qualifiers() {
    let items = parse_source_items(
        "pub fn plain() {}\npub(crate) async unsafe fn tagged<T>(value: T) {}\nextern \"C\" fn foreign() {}\n",
    )
    .unwrap();
    let functions: Vec<&FunctionItem> = items
        .iter()
        .map(|item| match item {
            SourceItem::Function(f) => f,
            _ => panic!("functions only"),
        })
        .collect();
    assert!(!functions[0].is_async && !functions[0].has_generics && !functions[0].has_abi);
    assert!(matches!(functions[0].visibility, ItemVisibility::Public));
    assert!(functions[1].is_async && functions[1].is_unsafe && functions[1].has_generics);
    assert!(matches!(&functions[1].visibility, ItemVisibility::Restricted(Some(last)) if last == "crate"));
    assert!(functions[2].has_abi);
    assert!(matches!(functions[2].visibility, ItemVisibility::Inherited));
}
