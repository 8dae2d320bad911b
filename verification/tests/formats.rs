use roe::codec::{parse_text, serialize_text, xml_escape};
use roe::format::{json_line_for_path, path_segments, toml_line_for_path, yaml_line_for_path, FileFormat};
use roe::value::{parse_path_parts, JsonEntry, JsonValue};

fn chars(s: &str) -> Vec<char> {
    s.chars().collect()
}

fn strings(v: Vec<Vec<char>>) -> Vec<String> {
    v.into_iter().map(|c| c.into_iter().collect()).collect()
}

#[test]
fn formats_come_from_the_extension_in_any_case() {
    assert_eq!(FileFormat::from_path("dir/file.YML"), FileFormat::Yaml);
    assert_eq!(FileFormat::from_path("a.b/c.Toml"), FileFormat::Toml);
    assert_eq!(FileFormat::from_path("notes.xml"), FileFormat::Xml);
    assert_eq!(FileFormat::from_path("noext"), FileFormat::Json);
    assert_eq!(FileFormat::from_path(".hidden"), FileFormat::Json);
    assert_eq!(FileFormat::from_extension("YAML"), FileFormat::Yaml);
    assert_eq!(FileFormat::from_extension("txt"), FileFormat::Json);
    assert!(FileFormat::is_supported_extension("Json"));
    assert!(!FileFormat::is_supported_extension("txt"));
    assert_eq!(FileFormat::Yaml.extensions(), vec!["yaml", "yml"]);
    assert_eq!(FileFormat::all_extensions(), vec!["json", "yaml", "yml", "toml", "xml"]);
    assert_eq!(FileFormat::Toml.default_filename(), "output.toml");
    assert_eq!(FileFormat::Xml.default_extension(), "xml");
    assert_eq!(FileFormat::Yaml.name(), "YAML");
}

#[test]
fn yaml_numbers_tags_and_keys_are_converted() {
    let v = parse_text(FileFormat::Yaml, "f: 1.5\nn: -3\nt: !Ref X\n1: one\n").unwrap();
    assert_eq!(
        serialize_text(FileFormat::Json, &v),
        "{\n  \"1\": \"one\",\n  \"f\": 1.5,\n  \"n\": -3,\n  \"t\": {\n    \"!Ref\": \"X\"\n  }\n}"
    );
}

#[test]
fn toml_tables_are_read_and_written() {
    let v = parse_text(FileFormat::Toml, "[server]\nport = 80\nname = \"x\"\n").unwrap();
    assert_eq!(serialize_text(FileFormat::Json, &v), "{\n  \"server\": {\n    \"name\": \"x\",\n    \"port\": 80\n  }\n}");
    assert_eq!(serialize_text(FileFormat::Toml, &v), "[server]\nname = \"x\"\nport = 80\n");
}

#[test]
fn scalars_that_toml_cannot_hold_report_an_error() {
    let v = JsonValue::Number("1".to_string());
    assert!(serialize_text(FileFormat::Toml, &v).starts_with("# "));
}

#[test]
fn xml_text_and_attributes_are_escaped() {
    assert_eq!(xml_escape("a<b>&\"c\""), "a&lt;b&gt;&amp;&quot;c&quot;");
    let v = JsonValue::Object(vec![JsonEntry {
        key: "r".to_string(),
        value: JsonValue::Object(vec![
            JsonEntry { key: "$text".to_string(), value: JsonValue::String("hi".to_string()) },
            JsonEntry { key: "@id".to_string(), value: JsonValue::String("1<2".to_string()) },
            JsonEntry { key: "n".to_string(), value: JsonValue::Null },
        ]),
    }]);
    assert_eq!(
        serialize_text(FileFormat::Xml, &v),
        "<?xml version=\"1.0\" encoding=\"UTF-8\"?>\n<r id=\"1&lt;2\">\n  hi\n  <n/>\n</r>\n"
    );
    let several = JsonValue::Object(vec![
        JsonEntry { key: "a".to_string(), value: JsonValue::Bool(true) },
        JsonEntry { key: "b".to_string(), value: JsonValue::Number("2".to_string()) },
    ]);
    assert_eq!(
        serialize_text(FileFormat::Xml, &several),
        "<?xml version=\"1.0\" encoding=\"UTF-8\"?>\n<root>\n  <a>true</a>\n  <b>2</b>\n</root>\n"
    );
}

#[test]
fn xml_mixed_content_keeps_its_text() {
    let v = parse_text(FileFormat::Xml, "<a x=\"1\"> lead <b>in</b> </a>").unwrap();
    assert_eq!(
        serialize_text(FileFormat::Json, &v),
        "{\n  \"a\": {\n    \"$text\": \"lead\",\n    \"@x\": \"1\",\n    \"b\": \"in\"\n  }\n}"
    );
    let empty = parse_text(FileFormat::Xml, "<e/>").unwrap();
    assert_eq!(serialize_text(FileFormat::Json, &empty), "{\n  \"e\": \"\"\n}");
}

#[test]
fn paths_split_into_parts() {
    assert_eq!(strings(parse_path_parts(&chars("a.b[0].c"))), vec!["a", "b", "0", "c"]);
    assert_eq!(strings(parse_path_parts(&chars("[2][3]"))), vec!["2", "3"]);
    assert_eq!(strings(parse_path_parts(&chars(""))), Vec::<String>::new());
    assert_eq!(strings(path_segments(&chars("users[0].name"))), vec!["users", "0", "name"]);
}

#[test]
fn line_lookup_per_format() {
    let json = "{\n  \"a\": [\n    {\n      \"b\": 1\n    }\n  ]\n}";
    assert_eq!(json_line_for_path(json, "a[0].b"), Some(3));
    assert_eq!(json_line_for_path(json, "a[1]"), None);
    let flush = "a:\n- b: 1\n  c: 2\n";
    assert_eq!(yaml_line_for_path(flush, "a[0]"), None);
    let yaml = "a:\n  - b: 1\n";
    assert_eq!(yaml_line_for_path(yaml, "a[0]"), Some(1));
    assert_eq!(yaml_line_for_path(yaml, ""), Some(0));
    let toml = "x=1\n[t]\ny = 2\n[u]\ny = 3\n";
    assert_eq!(toml_line_for_path(toml, "x"), Some(0));
    assert_eq!(toml_line_for_path(toml, "u.y"), Some(4));
    assert_eq!(toml_line_for_path(toml, "t.z"), None);
}

#[test]
fn every_extension_names_its_format_again() {
    for f in [FileFormat::Json, FileFormat::Yaml, FileFormat::Toml, FileFormat::Xml] {
        for e in f.extensions() {
            assert_eq!(FileFormat::from_extension(e), f);
            assert_eq!(FileFormat::from_extension(&e.to_uppercase()), f);
        }
        assert_eq!(FileFormat::from_extension(f.default_extension()), f);
    }
}
