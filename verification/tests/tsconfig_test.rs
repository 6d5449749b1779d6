use taskgraph::json::JsonValue;
use taskgraph::tsconfig::{
    sort_by_path, text_not_after, Jsx, Lib, Module, ModuleResolution, Reference, Target,
    TsConfigJson,
};

fn convert(value: &serde_json::Value) -> JsonValue {
    match value {
        serde_json::Value::Null => JsonValue::Null,
        serde_json::Value::Bool(b) => JsonValue::Bool(*b),
        serde_json::Value::Number(n) => JsonValue::Number(n.to_string()),
        serde_json::Value::String(s) => JsonValue::Text(s.clone()),
        serde_json::Value::Array(items) => JsonValue::List(items.iter().map(convert).collect()),
        serde_json::Value::Object(entries) => {
            JsonValue::Object(entries.iter().map(|(k, v)| (k.clone(), convert(v))).collect())
        }
    }
}

#[test]
fn serializes_special_fields() {
    assert_eq!(Jsx::ReactJsxdev.name(), "react-jsxdev");
    let libs = vec![
        Lib::Dom,
        Lib::Es2015Generator,
        Lib::Es2016ArrayInclude,
        Lib::Es2017SharedMemory,
        Lib::Es2018Intl,
        Lib::Es2019Symbol,
        Lib::Es2020SymbolWellknown,
        Lib::Es2021Weakref,
    ];
    let names: Vec<String> = libs.iter().map(|l| l.serialized()).collect();
    assert_eq!(
        names,
        vec![
            "dom",
            "es2015.generator",
            "es2016.array.include",
            "es2017.sharedmemory",
            "es2018.intl",
            "es2019.symbol",
            "es2020.symbol.wellknown",
            "es2021.weakref",
        ]
    );
}

#[test]
fn deserializes_special_fields() {
    assert_eq!(Jsx::from_name("react-native"), Some(Jsx::ReactNative));
    let names = [
        "dom",
        "es2015.collection",
        "es2016",
        "es2017.typedarrays",
        "es2018.promise",
        "es2019.string",
        "es2020",
        "es2021.weakref",
    ];
    let libs: Vec<Lib> = names.iter().map(|n| Lib::from_text(n)).collect();
    assert_eq!(
        libs,
        vec![
            Lib::Dom,
            Lib::Es2015Collection,
            Lib::Es2016,
            Lib::Es2017TypedArrays,
            Lib::Es2018Promise,
            Lib::Es2019String,
            Lib::Es2020,
            Lib::Es2021Weakref,
        ]
    );
    assert_eq!(Module::from_text("es2015"), Module::Es2015);
    assert_eq!(ModuleResolution::from_text("classic"), ModuleResolution::Classic);
    assert_eq!(Target::from_text("esnext"), Target::EsNext);
}

#[test]
fn merge_two_configs() {
    let json_1 = r#"{"compilerOptions": {"jsx": "react", "noEmit": true}}"#;
    let json_2 = r#"{"compilerOptions": {"jsx": "preserve", "removeComments": true}}"#;

    let mut value1 = convert(&serde_json::from_str(json_1).unwrap());
    let value2 = convert(&serde_json::from_str(json_2).unwrap());

    value1.merge(value2);

    let options = value1.get("compilerOptions").unwrap();
    let jsx = match options.get("jsx") {
        Some(JsonValue::Text(name)) => Jsx::from_name(name),
        _ => None,
    };
    assert_eq!(jsx, Some(Jsx::React));
    assert_eq!(options.get("noEmit"), Some(&JsonValue::Bool(true)));
    assert_eq!(options.get("removeComments"), Some(&JsonValue::Bool(true)));
}

#[test]
fn names_are_read_in_any_case() {
    assert_eq!(Module::from_text("CommonJS"), Module::CommonJs);
    assert_eq!(Module::from_text("none"), Module::NoModules);
    assert_eq!(Module::from_text("es2022"), Module::Es2020);
    assert_eq!(Module::from_text("weird"), Module::Other("WEIRD".to_string()));
    assert_eq!(Module::from_upper("weird"), Module::Other("weird".to_string()));
    assert_eq!(ModuleResolution::from_text("node12"), ModuleResolution::Node12);
    assert_eq!(ModuleResolution::from_text("NodeNext"), ModuleResolution::NodeNext);
    assert_eq!(ModuleResolution::from_text("anything"), ModuleResolution::Node);
    assert_eq!(Target::from_text("es5"), Target::Es5);
    assert_eq!(Target::from_text("Es2022"), Target::Es2022);
    assert_eq!(Target::from_text("es99"), Target::Other("ES99".to_string()));
    assert_eq!(Lib::from_text("ES2015.Symbol.WellKnown"), Lib::Es2015SymbolWellKnown);
    assert_eq!(Lib::from_text("webworker"), Lib::WebWorker);
    assert_eq!(Lib::from_text("mine"), Lib::Other("MINE".to_string()));
    assert_eq!(Jsx::from_name("REACT"), None);
}

#[test]
fn libraries_are_written_by_name() {
    assert_eq!(Lib::DomIterable.serialized(), "dom.iterable");
    assert_eq!(Lib::ScriptHost.serialized(), "scripthost");
    assert_eq!(Lib::EsNextAsyncIterable.serialized(), "esnext.asynciterable");
    assert_eq!(Lib::Es2018RegExp.written(), "ES2018.REGEXP");
    assert_eq!(Lib::WebWorker.written(), "WebWorker");
    assert_eq!(Lib::Other("My \"Lib\"".to_string()).written(), "Other(\"My \\\"Lib\\\"\")");
    assert_eq!(Lib::Other("My".to_string()).serialized(), "other(\"my\")");
    for name in ["react", "react-jsx", "react-jsxdev", "react-native", "preserve"] {
        assert_eq!(Jsx::from_name(name).unwrap().name(), name);
    }
}

#[test]
fn adds_a_project_reference_in_order() {
    let mut config = TsConfigJson::default();
    assert!(config.add_project_ref("../b".to_string()));
    assert!(config.add_project_ref("../a".to_string()));
    assert!(config.add_project_ref("../c".to_string()));
    assert!(!config.add_project_ref("../a".to_string()));
    let paths: Vec<&str> =
        config.references.as_ref().unwrap().iter().map(|r| r.path.as_str()).collect();
    assert_eq!(paths, vec!["../a", "../b", "../c"]);
    assert_eq!(
        config.references.as_ref().unwrap()[0],
        Reference { path: "../a".to_string(), prepend: None }
    );
}

#[test]
fn leaves_the_settings_alone_where_the_reference_exists() {
    let mut config = TsConfigJson {
        references: Some(vec![
            Reference { path: "z".to_string(), prepend: Some(true) },
            Reference { path: "a".to_string(), prepend: None },
        ]),
        extends: Some("base.json".to_string()),
        ..TsConfigJson::default()
    };
    assert!(!config.add_project_ref("z".to_string()));
    assert_eq!(config.references.as_ref().unwrap()[0].path, "z");
    assert!(config.add_project_ref("m".to_string()));
    let paths: Vec<&str> =
        config.references.as_ref().unwrap().iter().map(|r| r.path.as_str()).collect();
    assert_eq!(paths, vec!["a", "m", "z"]);
    assert_eq!(config.references.as_ref().unwrap()[2].prepend, Some(true));
    assert_eq!(config.extends.as_deref(), Some("base.json"));
}

#[test]
fn texts_are_ordered_by_their_characters() {
    let pairs = [
        ("", "", true),
        ("", "a", true),
        ("a", "", false),
        ("a", "a", true),
        ("a", "b", true),
        ("b", "a", false),
        ("ab", "abc", true),
        ("abc", "ab", false),
        ("abd", "abc", false),
        ("Z", "a", true),
        ("é", "z", false),
        ("../a", "../b", true),
    ];
    for (a, b, expected) in pairs {
        assert_eq!(text_not_after(&a.to_string(), &b.to_string()), expected, "{a} {b}");
        let by_std = a <= b;
        assert_eq!(expected, by_std);
    }
}

#[test]
fn references_are_sorted_and_equal_paths_keep_their_order() {
    let list = vec![
        Reference { path: "b".to_string(), prepend: Some(true) },
        Reference { path: "a".to_string(), prepend: None },
        Reference { path: "c".to_string(), prepend: None },
        Reference { path: "b".to_string(), prepend: Some(false) },
        Reference { path: "a".to_string(), prepend: Some(true) },
    ];
    let sorted = sort_by_path(&list);
    let mut expected = list.clone();
    expected.sort_by_key(|r| r.path.clone());
    assert_eq!(sorted, expected);
    assert_eq!(sorted[0], Reference { path: "a".to_string(), prepend: None });
    assert_eq!(sorted[2], Reference { path: "b".to_string(), prepend: Some(true) });
    assert_eq!(sort_by_path(&vec![]), Vec::<Reference>::new());
}
