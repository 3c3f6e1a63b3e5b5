use aeco_patch_config::naming::{extension, file_stem, first_segment};
use std::path::Path;

fn names() -> Vec<&'static str> {
    vec![
        "", ".", "..", "...", ".hidden", ".hidden.txt", "a", "a.", "a.b", "a.b.c", "a..b",
        "archive.tar.gz", "b.hed", "b.dat", "b.archive", "..hed", "...hed", "noext", "x.DAT",
        "\u{e9}t\u{e9}.d\u{e9}", "trailing..", "a.b.",
    ]
}

#[test]
fn extension_examples() {
    assert_eq!(extension("b.hed"), Some("hed".to_string()));
    assert_eq!(extension("archive.tar.gz"), Some("gz".to_string()));
    assert_eq!(extension("a."), Some(String::new()));
    assert_eq!(extension("noext"), None);
    assert_eq!(extension(".hidden"), None);
    assert_eq!(extension(".hidden.txt"), Some("txt".to_string()));
    assert_eq!(extension(""), None);
    assert_eq!(extension("."), None);
    assert_eq!(extension(".."), None);
    assert_eq!(extension("..."), Some(String::new()));
}

#[test]
fn stem_examples() {
    assert_eq!(file_stem("b.hed"), "b");
    assert_eq!(file_stem("archive.tar.gz"), "archive.tar");
    assert_eq!(file_stem("a."), "a");
    assert_eq!(file_stem("noext"), "noext");
    assert_eq!(file_stem(".hidden"), ".hidden");
    assert_eq!(file_stem(""), "");
    assert_eq!(file_stem(".."), "..");
    assert_eq!(file_stem("..hed"), ".");
}

#[test]
fn first_segment_examples() {
    assert_eq!(first_segment("b.hed"), "b");
    assert_eq!(first_segment("a.b.c"), "a");
    assert_eq!(first_segment("noext"), "noext");
    assert_eq!(first_segment(".hidden"), "");
    assert_eq!(first_segment(""), "");
    assert_eq!(first_segment("\u{e9}t\u{e9}.d\u{e9}"), "\u{e9}t\u{e9}");
}

#[test]
fn extension_and_stem_agree_with_paths() {
    for name in names() {
        if name.is_empty() || name == "." || name == ".." {
            continue;
        }
        let path = Path::new(name);
        let std_extension = path.extension().map(|e| e.to_str().expect("text").to_string());
        let std_stem = path.file_stem().map(|e| e.to_str().expect("text").to_string());
        assert_eq!(extension(name), std_extension, "extension of {}", name);
        assert_eq!(Some(file_stem(name)), std_stem, "stem of {}", name);
    }
}

#[test]
fn first_segment_agrees_with_split() {
    for name in names() {
        assert_eq!(first_segment(name), name.split('.').next().expect("one segment"));
    }
}

#[test]
fn stem_and_extension_make_up_the_name() {
    for name in names() {
        match extension(name) {
            Some(ext) => assert_eq!(format!("{}.{}", file_stem(name), ext), name),
            None => assert_eq!(file_stem(name), name),
        }
    }
}
