use code_mcp::codegen::luau_types::{
    extract_schema_defs, json_schema_prop_to_field_type, json_schema_to_params,
    json_schema_type_to_luau,
};
use code_mcp::codegen::manifest::FieldType;
use code_mcp::fragment::Fragment;

fn txt(s: &str) -> Fragment {
    Fragment::Text(s.to_string())
}

fn obj(entries: Vec<(&str, Fragment)>) -> Fragment {
    Fragment::Object(
        entries
            .into_iter()
            .map(|(k, v)| (k.to_string(), v))
            .collect(),
    )
}

#[test]
fn test_json_schema_type_to_luau() {
    assert_eq!(json_schema_type_to_luau("string", None), "string");
    assert_eq!(json_schema_type_to_luau("integer", None), "number");
    assert_eq!(json_schema_type_to_luau("number", None), "number");
    assert_eq!(json_schema_type_to_luau("boolean", None), "boolean");
    assert_eq!(json_schema_type_to_luau("unknown", None), "any");
}

#[test]
fn test_json_schema_to_params_flat() {
    let schema = obj(vec![
        ("type", txt("object")),
        ("required", Fragment::List(vec![txt("path")])),
        (
            "properties",
            obj(vec![
                (
                    "path",
                    obj(vec![("type", txt("string")), ("description", txt("File path"))]),
                ),
                ("encoding", obj(vec![("type", txt("string"))])),
            ]),
        ),
    ]);
    let params = json_schema_to_params(&schema);
    assert_eq!(params.len(), 2);
    let path_param = params.iter().find(|p| p.name == "path").unwrap();
    assert!(path_param.required);
    assert_eq!(path_param.luau_type, "string");
    assert_eq!(path_param.description.as_deref(), Some("File path"));
    let enc_param = params.iter().find(|p| p.name == "encoding").unwrap();
    assert!(!enc_param.required);
}

#[test]
fn test_extract_schema_defs_from_json_schema() {
    let schema = obj(vec![
        ("type", txt("object")),
        (
            "properties",
            obj(vec![("user", obj(vec![("$ref", txt("#/$defs/User"))]))]),
        ),
        (
            "$defs",
            obj(vec![(
                "User",
                obj(vec![
                    ("type", txt("object")),
                    ("required", Fragment::List(vec![txt("name")])),
                    (
                        "properties",
                        obj(vec![
                            ("name", obj(vec![("type", txt("string"))])),
                            ("email", obj(vec![("type", txt("string"))])),
                        ]),
                    ),
                ]),
            )]),
        ),
    ]);
    let defs = extract_schema_defs(&schema);
    assert_eq!(defs.len(), 1);
    assert_eq!(defs[0].name, "User");
    assert_eq!(defs[0].fields.len(), 2);
}

#[test]
fn test_json_schema_to_field_type() {
    let prop = obj(vec![("type", txt("string"))]);
    assert_eq!(json_schema_prop_to_field_type(&prop), FieldType::String);

    let arr = obj(vec![
        ("type", txt("array")),
        ("items", obj(vec![("type", txt("integer"))])),
    ]);
    assert_eq!(
        json_schema_prop_to_field_type(&arr),
        FieldType::Array {
            items: Box::new(FieldType::Integer)
        }
    );

    let o = obj(vec![
        ("type", txt("object")),
        ("properties", obj(vec![("x", obj(vec![("type", txt("number"))]))])),
    ]);
    match json_schema_prop_to_field_type(&o) {
        FieldType::InlineObject { fields } => {
            assert_eq!(fields.len(), 1);
            assert_eq!(fields[0].name, "x");
        }
        other => panic!("Expected InlineObject, got {other:?}"),
    }

    let reftype = obj(vec![("$ref", txt("#/$defs/User"))]);
    assert_eq!(
        json_schema_prop_to_field_type(&reftype),
        FieldType::Object {
            schema: "User".to_string()
        }
    );
}

#[test]
fn test_ref_wins_over_other_keys() {
    let prop = obj(vec![
        ("type", txt("object")),
        ("properties", obj(vec![("a", obj(vec![]))])),
        ("$ref", txt("#/$defs/User")),
    ]);
    assert_eq!(
        json_schema_prop_to_field_type(&prop),
        FieldType::Object {
            schema: "User".to_string()
        }
    );
    let bare = obj(vec![("$ref", txt("User"))]);
    assert_eq!(
        json_schema_prop_to_field_type(&bare),
        FieldType::Object {
            schema: "User".to_string()
        }
    );
}

#[test]
fn test_array_fallbacks() {
    // an array with no item information at all maps to plain `any`
    assert_eq!(json_schema_type_to_luau("array", None), "any");
    // one with an item fragment but no usable element type keeps the braces
    assert_eq!(json_schema_type_to_luau("array", Some(&obj(vec![]))), "{any}");
    let arr = obj(vec![("type", txt("array")), ("items", obj(vec![("type", txt("integer"))]))]);
    match &arr {
        Fragment::Object(entries) => {
            assert_eq!(json_schema_type_to_luau("array", Some(&entries[1].1)), "{number}");
        }
        _ => unreachable!(),
    }
    let no_items = obj(vec![("type", txt("array"))]);
    assert_eq!(
        json_schema_prop_to_field_type(&no_items),
        FieldType::Array {
            items: Box::new(FieldType::String)
        }
    );
    let untyped_items = obj(vec![("type", txt("array")), ("items", obj(vec![]))]);
    assert_eq!(
        json_schema_prop_to_field_type(&untyped_items),
        FieldType::Array {
            items: Box::new(FieldType::String)
        }
    );
    // the same rule through the parameter extractor
    let schema = obj(vec![(
        "properties",
        obj(vec![("tags", obj(vec![("type", txt("array"))]))]),
    )]);
    let params = json_schema_to_params(&schema);
    assert_eq!(params.len(), 1);
    assert_eq!(params[0].luau_type, "any");
}

#[test]
fn test_bare_object_is_free_map() {
    let prop = obj(vec![("type", txt("object"))]);
    assert_eq!(
        json_schema_prop_to_field_type(&prop),
        FieldType::FreeMap {
            value: Box::new(FieldType::String)
        }
    );
}

#[test]
fn test_unknown_and_missing_types_fall_back() {
    let unknown = obj(vec![("type", txt("unknown"))]);
    assert_eq!(json_schema_prop_to_field_type(&unknown), FieldType::String);
    assert_eq!(json_schema_type_to_luau("unknown", None), "any");
    let missing = obj(vec![("description", txt("no type here"))]);
    assert_eq!(json_schema_prop_to_field_type(&missing), FieldType::String);
    let nonstring_type = obj(vec![("type", Fragment::Number)]);
    assert_eq!(json_schema_prop_to_field_type(&nonstring_type), FieldType::String);
    let nonstring_ref = obj(vec![("$ref", Fragment::Bool(true))]);
    assert_eq!(json_schema_prop_to_field_type(&nonstring_ref), FieldType::String);
}

#[test]
fn test_totality_on_malformed_fragments() {
    assert_eq!(json_schema_prop_to_field_type(&Fragment::Null), FieldType::String);
    assert_eq!(
        json_schema_prop_to_field_type(&Fragment::List(vec![Fragment::Number])),
        FieldType::String
    );
    assert_eq!(json_schema_prop_to_field_type(&txt("plain")), FieldType::String);
    assert!(json_schema_to_params(&Fragment::Null).is_empty());
    assert!(extract_schema_defs(&Fragment::Bool(false)).is_empty());
    let non_object_defs = obj(vec![("$defs", txt("nope"))]);
    assert!(extract_schema_defs(&non_object_defs).is_empty());
}

#[test]
fn test_params_sorted_and_required() {
    let schema = obj(vec![
        ("required", Fragment::List(vec![txt("path")])),
        (
            "properties",
            obj(vec![
                ("path", obj(vec![("type", txt("string"))])),
                ("encoding", obj(vec![("type", txt("string"))])),
            ]),
        ),
    ]);
    let params = json_schema_to_params(&schema);
    assert_eq!(params.len(), 2);
    assert_eq!(params[0].name, "encoding");
    assert!(!params[0].required);
    assert_eq!(params[1].name, "path");
    assert!(params[1].required);
}

#[test]
fn test_property_order_does_not_matter() {
    let forward = obj(vec![
        ("required", Fragment::List(vec![txt("path")])),
        (
            "properties",
            obj(vec![
                ("path", obj(vec![("type", txt("string"))])),
                ("encoding", obj(vec![("type", txt("string"))])),
            ]),
        ),
    ]);
    let backward = obj(vec![
        ("required", Fragment::List(vec![txt("path")])),
        (
            "properties",
            obj(vec![
                ("encoding", obj(vec![("type", txt("string"))])),
                ("path", obj(vec![("type", txt("string"))])),
            ]),
        ),
    ]);
    assert_eq!(json_schema_to_params(&forward), json_schema_to_params(&backward));
}

#[test]
fn test_extraction_is_idempotent() {
    let schema = obj(vec![
        (
            "$defs",
            obj(vec![
                (
                    "User",
                    obj(vec![
                        ("required", Fragment::List(vec![txt("name")])),
                        (
                            "properties",
                            obj(vec![
                                ("name", obj(vec![("type", txt("string"))])),
                                ("email", obj(vec![("type", txt("string"))])),
                            ]),
                        ),
                    ]),
                ),
                ("Empty", obj(vec![])),
            ]),
        ),
    ]);
    assert_eq!(extract_schema_defs(&schema), extract_schema_defs(&schema));
    assert_eq!(json_schema_to_params(&schema), json_schema_to_params(&schema));
}

#[test]
fn test_defs_sorted_with_required_flags() {
    let schema = obj(vec![(
        "definitions",
        obj(vec![
            (
                "Zeta",
                obj(vec![("description", txt("last alphabetically"))]),
            ),
            (
                "User",
                obj(vec![
                    ("required", Fragment::List(vec![txt("name")])),
                    (
                        "properties",
                        obj(vec![
                            ("name", obj(vec![("type", txt("string"))])),
                            ("email", obj(vec![("type", txt("string"))])),
                        ]),
                    ),
                ]),
            ),
        ]),
    )]);
    let defs = extract_schema_defs(&schema);
    assert_eq!(defs.len(), 2);
    assert_eq!(defs[0].name, "User");
    assert_eq!(defs[1].name, "Zeta");
    assert_eq!(defs[1].description.as_deref(), Some("last alphabetically"));
    assert!(defs[1].fields.is_empty());
    let fields = &defs[0].fields;
    assert_eq!(fields[0].name, "email");
    assert!(!fields[0].required);
    assert_eq!(fields[0].field_type, FieldType::String);
    assert_eq!(fields[1].name, "name");
    assert!(fields[1].required);
    assert!(fields[0].enum_values.is_none());
    assert!(!fields[0].nullable);
    assert!(fields[0].format.is_none());
}

#[test]
fn test_defs_table_preference() {
    let both = obj(vec![
        ("$defs", obj(vec![("FromDefs", obj(vec![]))])),
        ("definitions", obj(vec![("FromDefinitions", obj(vec![]))])),
    ]);
    let defs = extract_schema_defs(&both);
    assert_eq!(defs.len(), 1);
    assert_eq!(defs[0].name, "FromDefs");
    // a `$defs` that is not an object wins the lookup and yields nothing
    let shadowed = obj(vec![
        ("$defs", txt("not a table")),
        ("definitions", obj(vec![("FromDefinitions", obj(vec![]))])),
    ]);
    assert!(extract_schema_defs(&shadowed).is_empty());
}
