use aeco_patch_config::fsobject::{Archive, Directory, FSObject, File};
use aeco_patch_config::json_text::{parse_quoted, write_quoted};

fn file(name: &str, digest: &str) -> File {
    File { name: name.to_string(), digest: digest.to_string() }
}

fn sample_tree() -> Directory {
    Directory {
        name: "patch".to_string(),
        children: vec![
            FSObject::File(file("a.txt", "0cc175b9c0f1b6a831c399e269772661")),
            FSObject::Archive(Archive {
                name: "b".to_string(),
                files: vec![
                    file("x.bin", "9dd4e461268c8034f5c8564e155c67a6"),
                    file("y.bin", "415290769594460e2e485922904f345d"),
                ],
            }),
            FSObject::Directory(Directory {
                name: "sub".to_string(),
                children: vec![FSObject::File(file("c.txt", "4a8a08f09d37b73795649038408b5f33"))],
            }),
        ],
    }
}

fn quote(text: &str) -> String {
    let mut out = String::new();
    write_quoted(&mut out, text);
    out
}

#[test]
fn manifest_text_of_a_small_tree() {
    let text = sample_tree().to_json();
    let expected = concat_all(&[
        "{\"name\":\"patch\",\"children\":[",
        "{\"File\":{\"name\":\"a.txt\",\"digest\":\"0cc175b9c0f1b6a831c399e269772661\"}},",
        "{\"Archive\":{\"name\":\"b\",\"files\":[",
        "{\"name\":\"x.bin\",\"digest\":\"9dd4e461268c8034f5c8564e155c67a6\"},",
        "{\"name\":\"y.bin\",\"digest\":\"415290769594460e2e485922904f345d\"}]}},",
        "{\"Directory\":{\"name\":\"sub\",\"children\":[",
        "{\"File\":{\"name\":\"c.txt\",\"digest\":\"4a8a08f09d37b73795649038408b5f33\"}}]}}",
        "]}",
    ]);
    assert_eq!(text, expected);
}

fn concat_all(parts: &[&str]) -> String {
    let mut out = String::new();
    for part in parts {
        out.push_str(part);
    }
    out
}

#[test]
fn manifest_of_an_empty_directory() {
    let tree = Directory { name: "patch".to_string(), children: vec![] };
    assert_eq!(tree.to_json(), "{\"name\":\"patch\",\"children\":[]}");
    assert_eq!(Directory::from_json("{\"name\":\"patch\",\"children\":[]}"), Some(tree));
}

#[test]
fn manifest_is_read_by_a_json_reader() {
    let text = sample_tree().to_json();
    let value: serde_json::Value = serde_json::from_str(&text).expect("the manifest is JSON");
    assert_eq!(value["name"], "patch");
    let children = value["children"].as_array().expect("children is an array");
    assert_eq!(children.len(), 3);
    assert_eq!(children[0]["File"]["name"], "a.txt");
    assert_eq!(children[0]["File"]["digest"], "0cc175b9c0f1b6a831c399e269772661");
    assert_eq!(children[1]["Archive"]["name"], "b");
    let members = children[1]["Archive"]["files"].as_array().expect("files is an array");
    assert_eq!(members.len(), 2);
    assert_eq!(members[0]["name"], "x.bin");
    assert_eq!(members[1]["name"], "y.bin");
    assert_eq!(children[2]["Directory"]["name"], "sub");
    assert_eq!(children[2]["Directory"]["children"][0]["File"]["name"], "c.txt");
}

#[test]
fn manifest_round_trip() {
    let text = sample_tree().to_json();
    assert_eq!(Directory::from_json(&text), Some(sample_tree()));
}

#[test]
fn manifest_round_trip_with_awkward_names() {
    let tree = Directory {
        name: "pa\"tch\\".to_string(),
        children: vec![
            FSObject::File(file("tab\there", "")),
            FSObject::File(file("line\nbreak\r", "\u{1}\u{1f}\u{8}\u{c}")),
            FSObject::Archive(Archive { name: "".to_string(), files: vec![] }),
            FSObject::Directory(Directory {
                name: "\u{e9}t\u{e9} \u{1f4c1}".to_string(),
                children: vec![FSObject::Directory(Directory {
                    name: "{\"File\":".to_string(),
                    children: vec![],
                })],
            }),
        ],
    };
    let text = tree.to_json();
    assert_eq!(Directory::from_json(&text), Some(tree));
    let value: serde_json::Value = serde_json::from_str(&text).expect("the manifest is JSON");
    assert_eq!(value["name"], "pa\"tch\\");
    assert_eq!(value["children"][1]["File"]["digest"], "\u{1}\u{1f}\u{8}\u{c}");
    assert_eq!(value["children"][3]["Directory"]["name"], "\u{e9}t\u{e9} \u{1f4c1}");
}

#[test]
fn strings_are_quoted_as_serde_json_quotes_them() {
    let mut samples: Vec<String> = vec![
        String::new(),
        "plain".to_string(),
        "with \"quotes\" and \\ backslash".to_string(),
        "\u{7f}\u{80}\u{2028}\u{1f4dd}".to_string(),
        "/slash".to_string(),
    ];
    for code in 0u32..0x80 {
        samples.push(char::from_u32(code).expect("ASCII").to_string());
    }
    for sample in samples {
        let expected = serde_json::to_string(&sample).expect("a string is always written");
        assert_eq!(quote(&sample), expected);
    }
}

#[test]
fn control_characters_are_escaped() {
    assert_eq!(quote("\u{0}"), "\"\\u0000\"");
    assert_eq!(quote("\u{1f}"), "\"\\u001f\"");
    assert_eq!(quote("\u{b}"), "\"\\u000b\"");
    assert_eq!(quote("\u{8}\u{c}\n\r\t"), "\"\\b\\f\\n\\r\\t\"");
    assert_eq!(quote("\"\\"), "\"\\\"\\\\\"");
}

#[test]
fn quoted_string_is_read_back() {
    let chars: Vec<char> = "xx\"a\\nb\\u001f\\\"\"yy".chars().collect();
    assert_eq!(parse_quoted(&chars, 2), Some(("a\nb\u{1f}\"".to_string(), 16)));
    assert_eq!(parse_quoted(&chars, 0), None);
}

#[test]
fn other_spellings_are_refused() {
    let refuse = |text: &str| {
        let chars: Vec<char> = text.chars().collect();
        assert_eq!(parse_quoted(&chars, 0), None, "{}", text);
    };
    refuse("\"open");
    refuse("\"\\u0041\"");
    refuse("\"\\u000a\"");
    refuse("\"\\u000A\"");
    refuse("\"\\u001F\"");
    refuse("\"\\/\"");
    refuse("\"raw\ttab\"");
    refuse("\"\\");
    refuse("\"\\u00");
    refuse("");
}

#[test]
fn text_that_is_no_manifest_is_refused() {
    assert_eq!(Directory::from_json(""), None);
    assert_eq!(Directory::from_json("{}"), None);
    assert_eq!(Directory::from_json("{\"name\":\"patch\",\"children\":[] }"), None);
    assert_eq!(Directory::from_json("{\"name\":\"patch\",\"children\":[]} "), None);
    assert_eq!(Directory::from_json("{\"name\": \"patch\",\"children\":[]}"), None);
    assert_eq!(Directory::from_json("{\"children\":[],\"name\":\"patch\"}"), None);
    assert_eq!(Directory::from_json("{\"name\":\"patch\",\"children\":[,]}"), None);
    assert_eq!(
        Directory::from_json(
            "{\"name\":\"patch\",\"children\":[{\"File\":{\"name\":\"a\",\"digest\":\"b\"}},]}"
        ),
        None
    );
    assert_eq!(
        Directory::from_json(
            "{\"name\":\"patch\",\"children\":[{\"Link\":{\"name\":\"a\",\"digest\":\"b\"}}]}"
        ),
        None
    );
    assert_eq!(
        Directory::from_json(
            "{\"name\":\"p\",\"children\":[{\"Archive\":{\"name\":\"a\",\"files\":[{\"Directory\":{\"name\":\"d\",\"children\":[]}}]}}]}"
        ),
        None
    );
}
