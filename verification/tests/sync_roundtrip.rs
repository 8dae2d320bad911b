use roe::format::FileFormat;
use roe::sync::{find_line_for_path, raw_to_tree, tree_to_raw, ParseResult};
use roe::tree::PathSet;

#[test]
fn parse_valid_json() {
    let raw = r#"{"hello": "world"}"#;
    let result = raw_to_tree(raw, PathSet::new(), FileFormat::Json);
    assert!(matches!(result, ParseResult::Parsed(_)));
}

#[test]
fn parse_invalid_json() {
    let raw = r#"{"hello": }"#;
    let result = raw_to_tree(raw, PathSet::new(), FileFormat::Json);
    assert!(matches!(result, ParseResult::Failed(_)));
}

#[test]
fn roundtrip_json() {
    let raw = "{\n  \"a\": 1,\n  \"b\": \"hi\"\n}";
    let ParseResult::Parsed(tree) = raw_to_tree(raw, PathSet::new(), FileFormat::Json) else {
        panic!("parse failed");
    };
    let out = tree_to_raw(&tree, FileFormat::Json);
    assert!(serde_json::from_str::<serde_json::Value>(&out).is_ok());
}

#[test]
fn roundtrip_yaml() {
    let raw = "a: 1\nb: hello\n";
    let ParseResult::Parsed(tree) = raw_to_tree(raw, PathSet::new(), FileFormat::Yaml) else {
        panic!("yaml parse failed");
    };
    let out = tree_to_raw(&tree, FileFormat::Yaml);
    let result = raw_to_tree(&out, PathSet::new(), FileFormat::Yaml);
    assert!(matches!(result, ParseResult::Parsed(_)));
}

#[test]
fn parse_yaml_with_tags() {
    let cfn = "\
AWSTemplateFormatVersion: '2010-09-09'
Parameters:
  Environment:
    Type: String
Conditions:
  IsProduction: !Equals [!Ref Environment, production]
Resources:
  MyBucket:
    Type: AWS::S3::Bucket
    Properties:
      BucketName: !Sub '${Environment}-bucket'
";
    let result = raw_to_tree(cfn, PathSet::new(), FileFormat::Yaml);
    assert!(
        matches!(result, ParseResult::Parsed(_)),
        "CloudFormation YAML with !Ref/!Sub/!Equals tags should parse"
    );
}

#[test]
fn roundtrip_toml() {
    let raw = "a = 1\nb = \"hello\"\n";
    let ParseResult::Parsed(tree) = raw_to_tree(raw, PathSet::new(), FileFormat::Toml) else {
        panic!("toml parse failed");
    };
    let out = tree_to_raw(&tree, FileFormat::Toml);
    let result = raw_to_tree(&out, PathSet::new(), FileFormat::Toml);
    assert!(matches!(result, ParseResult::Parsed(_)));
}

#[test]
fn json_is_written_pretty_with_sorted_keys() {
    let raw = r#"{"b": "hi", "a": 1}"#;
    let ParseResult::Parsed(tree) = raw_to_tree(raw, PathSet::new(), FileFormat::Json) else {
        panic!("parse failed");
    };
    assert_eq!(tree_to_raw(&tree, FileFormat::Json), "{\n  \"a\": 1,\n  \"b\": \"hi\"\n}");
}

#[test]
fn yaml_and_toml_are_written_back() {
    let ParseResult::Parsed(tree) = raw_to_tree("a: 1\nb: hello\n", PathSet::new(), FileFormat::Yaml) else {
        panic!("yaml parse failed");
    };
    assert_eq!(tree_to_raw(&tree, FileFormat::Yaml), "a: 1\nb: hello\n");
    assert_eq!(tree_to_raw(&tree, FileFormat::Toml), "a = 1\nb = \"hello\"\n");
}

#[test]
fn xml_becomes_an_object_named_by_its_root() {
    let raw = "<config version=\"2\"><item>a</item><item>b</item><name>x &amp; y</name></config>";
    let ParseResult::Parsed(tree) = raw_to_tree(raw, PathSet::new(), FileFormat::Xml) else {
        panic!("xml parse failed");
    };
    let json = tree_to_raw(&tree, FileFormat::Json);
    assert_eq!(
        json,
        "{\n  \"config\": {\n    \"@version\": \"2\",\n    \"item\": [\n      \"a\",\n      \"b\"\n    ],\n    \"name\": \"x & y\"\n  }\n}"
    );
    let xml = tree_to_raw(&tree, FileFormat::Xml);
    assert_eq!(
        xml,
        "<?xml version=\"1.0\" encoding=\"UTF-8\"?>\n<config version=\"2\">\n  <item>a</item>\n  <item>b</item>\n  <name>x &amp; y</name>\n</config>\n"
    );
}

#[test]
fn parse_errors_carry_a_message() {
    let ParseResult::Failed(msg) = raw_to_tree("{\"hello\": }", PathSet::new(), FileFormat::Json) else {
        panic!("expected an error");
    };
    assert!(msg.starts_with("JSON error at 1:11 — "));
    assert!(msg.ends_with("(near: \"{\"hello\": }\")"));
    let ParseResult::Failed(msg) = raw_to_tree("<a>", PathSet::new(), FileFormat::Xml) else {
        panic!("expected an error");
    };
    assert!(msg.starts_with("XML error: "));
    let ParseResult::Failed(msg) = raw_to_tree("a = ", PathSet::new(), FileFormat::Toml) else {
        panic!("expected an error");
    };
    assert!(msg.starts_with("TOML error: "));
    let ParseResult::Failed(msg) = raw_to_tree("a: [", PathSet::new(), FileFormat::Yaml) else {
        panic!("expected an error");
    };
    assert!(msg.starts_with("YAML error: "));
}

#[test]
fn previous_collapse_state_is_kept() {
    let mut coll = PathSet::new();
    coll.insert("a".to_string());
    let ParseResult::Parsed(tree) = raw_to_tree(r#"{"a": {"x": 1}, "b": 2}"#, coll, FileFormat::Json) else {
        panic!("parse failed");
    };
    assert_eq!(tree.visible_node_count(), 3);
    assert!(tree.flat_nodes()[1].collapsed);
}

#[test]
fn lines_are_found_for_paths() {
    let json = "{\n  \"a\": {\n    \"x\": 1\n  },\n  \"list\": [\n    10,\n    20\n  ]\n}";
    assert_eq!(find_line_for_path(json, "", FileFormat::Json), Some(0));
    assert_eq!(find_line_for_path(json, "a.x", FileFormat::Json), Some(2));
    assert_eq!(find_line_for_path(json, "list[1]", FileFormat::Json), Some(6));
    assert_eq!(find_line_for_path(json, "missing", FileFormat::Json), None);
    let yaml = "a:\n  x: 1\nlist:\n- 10\n- 20\n";
    assert_eq!(find_line_for_path(yaml, "a.x", FileFormat::Yaml), Some(1));
    let toml = "top = 1\n\n[server]\nport = 80\n";
    assert_eq!(find_line_for_path(toml, "top", FileFormat::Toml), Some(0));
    assert_eq!(find_line_for_path(toml, "server", FileFormat::Toml), None);
    assert_eq!(find_line_for_path(toml, "server.port", FileFormat::Toml), Some(3));
}

#[test]
fn error_preview_is_cut_at_a_character_boundary() {
    let raw = format!("[ \"{}\" x]", "\u{e9}".repeat(30));
    let ParseResult::Failed(msg) = raw_to_tree(&raw, PathSet::new(), FileFormat::Json) else {
        panic!("expected an error");
    };
    assert!(msg.starts_with("JSON error at 1:"));
    let expected_tail = format!("(near: \"[ \"{}\u{2026}\")", "\u{e9}".repeat(18));
    assert!(msg.ends_with(&expected_tail));
    assert!(FileFormat::Json.parse(&raw).is_err());
}

#[test]
fn json_keys_are_found_only_at_their_depth() {
    let raw = ["{", r#"  "a": {"#, r#"    "z": 1"#, "  },", r#"  "z": 2"#, "}"].join("\n");
    assert_eq!(find_line_for_path(&raw, "z", FileFormat::Json), Some(4));
    assert_eq!(find_line_for_path(&raw, "a.z", FileFormat::Json), Some(2));
    assert_eq!(find_line_for_path(&raw, "a.q", FileFormat::Json), None);
}
