use rloc::custom_langs::{default_string_delimiters, CustomLanguageDef, CustomLanguages};
use rloc::languages::{
    detect_language_with, get_language, get_language_ignore_case, resolve_language,
};
use rloc::tables::{EXTENSION_MAP, FILENAME_MAP};
use rloc::{detect_language, list_extensions, list_languages, Language, LANGUAGES};

#[test]
fn test_detect_language() {
    let lang = detect_language("test.rs").unwrap();
    assert_eq!(lang.name, "Rust");

    let lang = detect_language("test.ts").unwrap();
    assert_eq!(lang.name, "TypeScript");

    assert!(detect_language("test.unknown").is_none());
}

#[test]
fn every_language_has_its_own_name() {
    let all = list_languages();
    assert_eq!(all.len(), LANGUAGES.len());
    for (i, (name, language)) in all.iter().enumerate() {
        assert_eq!(*name, language.name);
        for (other, _) in &all[i + 1..] {
            assert_ne!(name, other);
        }
    }
}

#[test]
fn every_language_keeps_the_invariants_of_a_ruleset() {
    for (name, language) in list_languages() {
        assert!(language.is_well_formed(), "{}", name);
        assert_eq!(language.block_comment_start.is_some(), language.block_comment_end.is_some());
        for token in &language.string_delimiters {
            assert_eq!(token.chars().count(), 1, "{}", name);
        }
        assert!(language.raw_string_start.is_none() && language.raw_string_end.is_none());
    }
}

#[test]
fn every_mapping_names_a_language() {
    for (ext, name) in list_extensions() {
        assert!(get_language(name).is_some(), "{} -> {}", ext, name);
    }
    for (file, name) in FILENAME_MAP {
        assert!(get_language(name).is_some(), "{} -> {}", file, name);
    }
    assert_eq!(list_extensions().len(), EXTENSION_MAP.len());
}

#[test]
fn no_extension_and_no_file_name_is_mapped_twice() {
    for (i, (ext, _)) in EXTENSION_MAP.iter().enumerate() {
        for (other, _) in &EXTENSION_MAP[i + 1..] {
            assert_ne!(ext, other);
        }
    }
    for (i, (name, _)) in FILENAME_MAP.iter().enumerate() {
        for (other, _) in &FILENAME_MAP[i + 1..] {
            assert_ne!(name, other);
        }
    }
}

#[test]
fn rulesets_of_the_table() {
    let rust = get_language("Rust").unwrap();
    assert_eq!(rust.line_comments, vec!["//"]);
    assert_eq!(rust.block_comment_start.as_deref(), Some("/*"));
    assert_eq!(rust.block_comment_end.as_deref(), Some("*/"));
    assert!(rust.nested_comments);
    assert_eq!(rust.string_delimiters, vec!["\"", "'"]);

    let python = get_language("Python").unwrap();
    assert_eq!(python.line_comments, vec!["#"]);
    assert_eq!(python.block_comment_start.as_deref(), Some("\"\"\""));
    assert!(!python.nested_comments);

    let batch = get_language("Batch").unwrap();
    assert_eq!(batch.line_comments, vec!["REM", "rem", "::"]);
    assert!(batch.block_comment_start.is_none());
    assert_eq!(batch.string_delimiters, vec!["\""]);

    let json = get_language("JSON").unwrap();
    assert!(json.line_comments.is_empty());
    assert!(json.block_comment_start.is_none());

    let properties = get_language("Properties").unwrap();
    assert!(properties.string_delimiters.is_empty());

    assert!(get_language("rust").is_none());
    assert!(get_language("").is_none());
}

#[test]
fn names_are_found_whatever_their_case() {
    assert_eq!(get_language_ignore_case("typescript").unwrap().name, "TypeScript");
    assert_eq!(get_language_ignore_case("TYPESCRIPT").unwrap().name, "TypeScript");
    assert_eq!(get_language_ignore_case("c++").unwrap().name, "C++");
    assert!(get_language_ignore_case("NotARealLanguage").is_none());
}

#[test]
fn full_file_names_come_before_extensions() {
    assert_eq!(detect_language("Makefile").unwrap().name, "Makefile");
    assert_eq!(detect_language("src/Dockerfile").unwrap().name, "Dockerfile");
    assert_eq!(detect_language("a/b/CMakeLists.txt").unwrap().name, "CMake");
    assert_eq!(detect_language("Cargo.toml").unwrap().name, "TOML");
    assert_eq!(detect_language("other.toml").unwrap().name, "TOML");
    assert_eq!(detect_language("package.json").unwrap().name, "JSON");
    assert!(detect_language("makefile.unknown").is_none());
}

#[test]
fn generated_csharp_is_told_by_its_double_suffix() {
    assert_eq!(detect_language("Form1.Designer.cs").unwrap().name, "C# Generated");
    assert_eq!(detect_language("x/App.g.cs").unwrap().name, "C# Generated");
    assert_eq!(detect_language("APP.G.CS").unwrap().name, "C# Generated");
    assert_eq!(detect_language("App.cs").unwrap().name, "C#");
}

#[test]
fn extensions_of_the_table_are_matched_as_written() {
    assert_eq!(detect_language("a.rs").unwrap().name, "Rust");
    assert!(detect_language("a.RS").is_none());
    assert!(detect_language("noextension").is_none());
    assert!(detect_language(".rs").is_none());
    assert!(detect_language("").is_none());
    assert!(detect_language("dir.rs/").is_some());
}

#[test]
fn detection_gives_the_same_answer_each_time() {
    for path in ["a.rs", "b.py", "Makefile", "x.unknown", "a/b/c.G.cs"] {
        let first = detect_language(path).map(|l| l.name);
        let second = detect_language(path).map(|l| l.name);
        assert_eq!(first, second);
    }
}

#[test]
fn resolving_takes_the_lowered_forms_as_given() {
    let none = CustomLanguages::new();
    let found = resolve_language(Some(("X.G.CS", "x.g.cs")), Some(("CS", "cs")), &none);
    assert_eq!(found.unwrap().name, "C# Generated");
    let found = resolve_language(Some(("X.G.CS", "X.G.CS")), Some(("CS", "cs")), &none);
    assert!(found.is_none());
    let found = resolve_language(Some(("a.rs", "a.rs")), Some(("rs", "rs")), &none);
    assert_eq!(found.unwrap().name, "Rust");
    assert!(resolve_language(None, None, &none).is_none());
}

fn def(extensions: &[&str], line: &[&str]) -> CustomLanguageDef {
    CustomLanguageDef {
        extensions: extensions.iter().map(|s| s.to_string()).collect(),
        line_comments: line.iter().map(|s| s.to_string()).collect(),
        block_comment_start: None,
        block_comment_end: None,
        nested_comments: false,
        string_delimiters: default_string_delimiters(),
    }
}

#[test]
fn custom_languages_come_first_and_ignore_the_case_of_the_extension() {
    let defs = vec![
        ("Mine".to_string(), def(&["rs", "Mine"], &[";;"])),
        ("Other".to_string(), def(&["oth"], &["%"])),
    ];
    let custom = CustomLanguages::from_defs(&defs);
    assert_eq!(detect_language_with("a.rs", &custom).unwrap().name, "Mine");
    assert_eq!(detect_language_with("a.RS", &custom).unwrap().name, "Mine");
    assert_eq!(detect_language_with("a.mine", &custom).unwrap().name, "Mine");
    assert_eq!(detect_language_with("a.MINE", &custom).unwrap().name, "Mine");
    assert_eq!(detect_language_with("a.oth", &custom).unwrap().name, "Other");
    assert_eq!(detect_language_with("a.py", &custom).unwrap().name, "Python");
    assert_eq!(detect_language_with("Makefile", &custom).unwrap().name, "Makefile");
    let mine = custom.get_by_extension("Rs").unwrap();
    assert_eq!(mine.line_comments, vec![";;"]);
    assert_eq!(mine.string_delimiters, vec!["\"", "'"]);
    assert!(custom.get_by_extension("zz").is_none());
    assert!(custom.get_by_lowered_extension("RS").is_none());
}

#[test]
fn a_later_definition_overrides_an_earlier_one() {
    let defs = vec![
        ("A".to_string(), def(&["x"], &["#"])),
        ("B".to_string(), def(&["x"], &["%"])),
        ("A".to_string(), def(&["y"], &["!"])),
    ];
    let custom = CustomLanguages::from_defs(&defs);
    assert_eq!(custom.get_by_extension("x").unwrap().name, "B");
    let a = custom.get_by_extension("y").unwrap();
    assert_eq!(a.name, "A");
    assert_eq!(a.line_comments, vec!["!"]);
}

#[test]
fn custom_languages_are_loaded_once() {
    let mut slot: Option<CustomLanguages> = None;
    let defs = vec![("Mine".to_string(), def(&["mine"], &[";;"]))];
    assert_eq!(CustomLanguages::load(&mut slot, &defs), Ok(()));
    assert!(slot.as_ref().unwrap().get_by_extension("mine").is_some());
    let again = vec![("Late".to_string(), def(&["late"], &[";;"]))];
    assert_eq!(
        CustomLanguages::load(&mut slot, &again),
        Err("Custom languages already loaded".to_string())
    );
    assert!(slot.as_ref().unwrap().get_by_extension("late").is_none());
    assert!(slot.as_ref().unwrap().get_by_extension("mine").is_some());
}

#[test]
fn builders_make_the_families() {
    let plain = Language::new("P");
    assert!(plain.line_comments.is_empty() && plain.block_comment_start.is_none());
    assert_eq!(plain.string_delimiters, vec!["\"", "'"]);
    let c = Language::c_style("C-like");
    assert_eq!(c.name, "C-like");
    assert_eq!(c.line_comments, vec!["//"]);
    assert_eq!(c.block_comment_start.as_deref(), Some("/*"));
    assert_eq!(c.block_comment_end.as_deref(), Some("*/"));
    assert!(!c.nested_comments);
    let shell = Language::shell_style("S");
    assert_eq!(shell.line_comments, vec!["#"]);
    assert!(shell.block_comment_start.is_none());
    let html = Language::html_style("H");
    assert!(html.line_comments.is_empty());
    assert_eq!(html.block_comment_start.as_deref(), Some("<!--"));
    assert_eq!(html.block_comment_end.as_deref(), Some("-->"));
    let built = Language::shell_style("X")
        .with_line_comments(&["//", "#"])
        .with_block_comments("(*", "*)")
        .with_nested_comments()
        .with_string_delimiters(&["\""]);
    assert_eq!(built.line_comments, vec!["//", "#"]);
    assert_eq!(built.block_comment_start.as_deref(), Some("(*"));
    assert_eq!(built.block_comment_end.as_deref(), Some("*)"));
    assert!(built.nested_comments);
    assert_eq!(built.string_delimiters, vec!["\""]);
    assert!(built.is_well_formed());
    assert!(!Language::new("N").with_nested_comments().is_well_formed());
    assert!(!Language::new("N").with_line_comments(&[""]).is_well_formed());
    assert!(!Language::new("N").with_line_comments(&["a\nb"]).is_well_formed());
    let copy = built.clone();
    assert_eq!(copy.name, built.name);
    assert_eq!(copy.line_comments, built.line_comments);
}
