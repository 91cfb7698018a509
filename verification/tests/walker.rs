use rloc::custom_langs::CustomLanguages;
use rloc::walker::{
    choose_source, exclude_globs, filter_files, git_arguments, git_listed_paths, list_file_paths,
    passes_filters, passes_with, pattern_is_valid, size_within, Candidate, FileEntry, FileSource,
    VcsMode, WalkerConfig,
};

fn candidate(path: &str) -> Candidate {
    Candidate { path: path.to_string(), size: None, content: None }
}

fn test_files() -> Vec<Candidate> {
    vec![
        candidate("/tmp/p/test.rs"),
        candidate("/tmp/p/test.ts"),
        candidate("/tmp/p/test.tsx"),
        candidate("/tmp/p/test.js"),
        candidate("/tmp/p/test.py"),
    ]
}

fn walk(candidates: &Vec<Candidate>, config: &WalkerConfig) -> Vec<FileEntry> {
    filter_files(candidates, config, &CustomLanguages::new())
}

fn ext(path: &str) -> &str {
    path.rsplit('.').next().unwrap()
}

#[test]
fn test_default_excludes() {
    let config = WalkerConfig::default();
    assert!(config.exclude_dirs.contains(&"node_modules".to_string()));
    assert!(config.exclude_dirs.contains(&"target".to_string()));
    assert!(config.exclude_dirs.contains(&".git".to_string()));
}

#[test]
fn test_force_lang_case_insensitive() {
    let mut config = WalkerConfig::default();
    config.force_lang.push(("tsx".to_string(), "typescript".to_string()));

    let files = walk(&test_files(), &config);
    let tsx_as_ts: Vec<_> = files.iter().filter(|f| ext(&f.path) == "tsx").collect();

    assert_eq!(tsx_as_ts.len(), 1, "Should find the .tsx file");
    assert_eq!(
        tsx_as_ts[0].language.name, "TypeScript",
        "TSX file should be detected as TypeScript with case-insensitive force_lang"
    );
}

#[test]
fn walker_test_force_lang_exact_case() {
    let mut config = WalkerConfig::default();
    config.force_lang.push(("tsx".to_string(), "TypeScript".to_string()));

    let files = walk(&test_files(), &config);
    let tsx_files: Vec<_> = files.iter().filter(|f| ext(&f.path) == "tsx").collect();

    assert_eq!(tsx_files.len(), 1);
    assert_eq!(tsx_files[0].language.name, "TypeScript");
}

#[test]
fn test_include_extensions() {
    let mut config = WalkerConfig::default();
    config.include_exts = vec!["rs".to_string(), "ts".to_string()];

    let files = walk(&test_files(), &config);
    assert_eq!(files.len(), 2, "Should only include .rs and .ts files");

    for file in &files {
        let ext = ext(&file.path);
        assert!(ext == "rs" || ext == "ts", "Found unexpected extension: {}", ext);
    }
}

#[test]
fn test_exclude_extensions() {
    let mut config = WalkerConfig::default();
    config.exclude_exts = vec!["py".to_string()];

    let files = walk(&test_files(), &config);
    assert_eq!(files.len(), 4);
    for file in &files {
        assert_ne!(ext(&file.path), "py", "Python files should be excluded");
    }
}

#[test]
fn test_include_languages() {
    let mut config = WalkerConfig::default();
    config.include_langs = vec!["rust".to_string()];

    let files = walk(&test_files(), &config);
    assert_eq!(files.len(), 1, "Should only include Rust files");
    assert_eq!(files[0].language.name, "Rust");
}

#[test]
fn test_exclude_languages() {
    let mut config = WalkerConfig::default();
    config.exclude_langs = vec!["typescript".to_string(), "tsx".to_string()];

    let files = walk(&test_files(), &config);
    assert_eq!(files.len(), 3);
    for file in &files {
        assert!(
            file.language.name != "TypeScript" && file.language.name != "TSX",
            "TypeScript and TSX files should be excluded"
        );
    }
}

#[test]
fn test_force_lang_invalid_language_excluded() {
    let mut config = WalkerConfig::default();
    config.force_lang.push(("xyz".to_string(), "NotARealLanguage".to_string()));

    let files = walk(&vec![candidate("/tmp/p/test.xyz")], &config);
    assert!(files.is_empty(), "Files with invalid force_lang should be excluded");
}

#[test]
fn default_walk_options() {
    let config = WalkerConfig::default();
    assert_eq!(config.paths, vec!["."]);
    assert_eq!(
        config.exclude_dirs,
        vec![
            ".git",
            ".svn",
            ".hg",
            "node_modules",
            "target",
            "vendor",
            "dist",
            "build",
            "__pycache__",
            ".tox",
            ".eggs",
            "venv",
            ".venv",
            "env",
            ".env"
        ]
    );
    assert!(config.list_file.is_none() && config.vcs.is_none() && config.max_depth.is_none());
    assert!(config.force_lang.is_empty() && config.include_exts.is_empty());
    assert!(!config.hidden && !config.follow_symlinks && !config.fullpath);
    assert!(!config.skip_gitignore && !config.skip_uniqueness && !config.include_submodules);
    assert!(config.max_file_size.is_none());
}

#[test]
fn excluded_directories_become_two_patterns_each() {
    let mut config = WalkerConfig::default();
    config.exclude_dirs = vec!["node_modules".to_string(), "out".to_string()];
    assert_eq!(
        exclude_globs(&config),
        vec!["!**/node_modules/", "!node_modules/", "!**/out/", "!out/"]
    );
    config.exclude_dirs.clear();
    assert!(exclude_globs(&config).is_empty());
    assert!(exclude_globs(&WalkerConfig::default()).contains(&"!**/node_modules/".to_string()));
}

#[test]
fn unknown_files_are_dropped_and_order_is_kept() {
    let config = WalkerConfig::default();
    let candidates = vec![
        candidate("b.py"),
        candidate("readme.xyz"),
        candidate("a.rs"),
        candidate("noext"),
        candidate("Makefile"),
    ];
    let files = walk(&candidates, &config);
    let names: Vec<(&str, &str)> =
        files.iter().map(|f| (f.path.as_str(), f.language.name.as_str())).collect();
    assert_eq!(names, vec![("b.py", "Python"), ("a.rs", "Rust"), ("Makefile", "Makefile")]);
}

#[test]
fn filtering_twice_changes_nothing() {
    let mut config = WalkerConfig::default();
    config.exclude_exts = vec!["PY".to_string()];
    config.include_langs = vec!["rust".to_string(), "javascript".to_string()];
    config.not_match_file = vec!["^skip".to_string()];
    let mut candidates = test_files();
    candidates.push(candidate("/tmp/p/skip_me.rs"));
    candidates.push(candidate("/tmp/p/keep.js"));
    let once = walk(&candidates, &config);
    let again: Vec<Candidate> = once.iter().map(|f| candidate(&f.path)).collect();
    let twice = walk(&again, &config);
    let paths = |files: &Vec<FileEntry>| -> Vec<String> {
        files.iter().map(|f| f.path.clone()).collect()
    };
    assert_eq!(paths(&once), vec!["/tmp/p/test.rs", "/tmp/p/test.js", "/tmp/p/keep.js"]);
    assert_eq!(paths(&once), paths(&twice));
}

#[test]
fn extensions_are_compared_whatever_their_case() {
    let mut config = WalkerConfig::default();
    config.include_exts = vec!["RS".to_string()];
    assert!(passes_filters(&candidate("a.rs"), &config));
    assert!(!passes_filters(&candidate("a.py"), &config));
    assert!(!passes_filters(&candidate("Makefile"), &config));
    config.include_exts.clear();
    assert!(passes_filters(&candidate("Makefile"), &config));
    config.exclude_exts = vec!["Rs".to_string()];
    assert!(!passes_filters(&candidate("a.rs"), &config));
}

#[test]
fn size_limit_is_in_bytes() {
    assert!(size_within(Some(1), Some(1)));
    assert!(!size_within(Some(2), Some(1)));
    assert!(size_within(Some(1024 * 1024), Some(1024 * 1024)));
    assert!(!size_within(Some(1024 * 1024 + 1), Some(1024 * 1024)));
    assert!(size_within(None, Some(0)));
    assert!(size_within(Some(0), Some(0)));
    assert!(size_within(Some(u64::MAX), None));
    assert!(!size_within(Some(1), Some(0)));
    assert!(size_within(Some(u64::MAX), Some(u64::MAX)));
    for limit in [1u64, 7, 4096] {
        let mut config = WalkerConfig::default();
        config.max_file_size = Some(limit);
        let mut file = candidate("a.rs");
        file.size = Some(limit);
        assert!(passes_filters(&file, &config));
        assert_eq!(walk(&vec![file], &config).len(), 1);
        let mut larger = candidate("a.rs");
        larger.size = Some(limit + 1);
        assert!(!passes_filters(&larger, &config));
        assert!(walk(&vec![larger], &config).is_empty());
        let unknown = candidate("a.rs");
        assert!(passes_filters(&unknown, &config));
    }
}

#[test]
fn file_patterns_look_at_the_name_or_the_whole_path() {
    let mut config = WalkerConfig::default();
    config.match_file = Some("^test".to_string());
    assert!(passes_filters(&candidate("src/test_a.rs"), &config));
    assert!(!passes_filters(&candidate("test/a.rs"), &config));
    config.fullpath = true;
    assert!(passes_filters(&candidate("test/a.rs"), &config));
    assert!(!passes_filters(&candidate("src/test_a.rs"), &config));
    let mut config = WalkerConfig::default();
    config.not_match_file = vec!["\\.min\\.".to_string(), "^gen_".to_string()];
    assert!(!passes_filters(&candidate("a.min.js"), &config));
    assert!(!passes_filters(&candidate("x/gen_a.rs"), &config));
    assert!(passes_filters(&candidate("gen/a.rs"), &config));
}

#[test]
fn directory_patterns_look_at_the_parent() {
    let mut config = WalkerConfig::default();
    config.match_dir = Some("src".to_string());
    assert!(passes_filters(&candidate("a/src/b/x.rs"), &config));
    assert!(!passes_filters(&candidate("a/lib/x.rs"), &config));
    assert!(!passes_filters(&candidate("src.rs"), &config));
    let mut config = WalkerConfig::default();
    config.not_match_dir = vec!["^gen$".to_string()];
    assert!(!passes_filters(&candidate("a/gen/x.rs"), &config));
    assert!(passes_filters(&candidate("gen/a/x.rs"), &config));
    assert!(passes_filters(&candidate("x.rs"), &config));
    config.fullpath = true;
    assert!(passes_filters(&candidate("a/gen/x.rs"), &config));
    assert!(!passes_filters(&candidate("gen/x.rs"), &config));
}

#[test]
fn content_patterns_need_the_text() {
    let mut config = WalkerConfig::default();
    config.include_content = Some("TODO".to_string());
    let mut file = candidate("a.rs");
    assert!(!passes_filters(&file, &config));
    file.content = Some("fn main() {} // TODO".to_string());
    assert!(passes_filters(&file, &config));
    file.content = Some("fn main() {}".to_string());
    assert!(!passes_filters(&file, &config));
    let mut config = WalkerConfig::default();
    config.exclude_content = Some("GENERATED".to_string());
    assert!(passes_filters(&file, &config));
    file.content = Some("// GENERATED".to_string());
    assert!(!passes_filters(&file, &config));
    file.content = None;
    assert!(!passes_filters(&file, &config));
    assert!(passes_filters(&file, &WalkerConfig::default()));
}

#[test]
fn a_pattern_that_does_not_compile_matches_nothing() {
    assert!(pattern_is_valid("a+b"));
    assert!(pattern_is_valid(""));
    assert!(!pattern_is_valid("a(b"));
    let mut config = WalkerConfig::default();
    config.match_file = Some("a(b".to_string());
    assert!(!passes_filters(&candidate("a(b.rs"), &config));
    let mut config = WalkerConfig::default();
    config.not_match_file = vec!["a(b".to_string()];
    assert!(passes_filters(&candidate("a(b.rs"), &config));
}

#[test]
fn verdicts_of_the_patterns_are_taken_as_given() {
    let config = WalkerConfig::default();
    let file = candidate("a.rs");
    assert!(passes_with(&file, &config, true, true, true));
    assert!(!passes_with(&file, &config, false, true, true));
    assert!(!passes_with(&file, &config, true, false, true));
    assert!(!passes_with(&file, &config, true, true, false));
}

#[test]
fn a_list_file_comes_before_version_control() {
    let mut config = WalkerConfig::default();
    assert!(matches!(choose_source(&config, true), FileSource::Filesystem));
    config.vcs = Some(VcsMode::Auto);
    assert!(matches!(choose_source(&config, true), FileSource::Git));
    assert!(matches!(choose_source(&config, false), FileSource::Filesystem));
    config.vcs = Some(VcsMode::Git);
    assert!(matches!(choose_source(&config, false), FileSource::Git));
    config.vcs = Some(VcsMode::Off);
    assert!(matches!(choose_source(&config, true), FileSource::Filesystem));
    config.vcs = Some(VcsMode::Git);
    config.list_file = Some("files.txt".to_string());
    match choose_source(&config, true) {
        FileSource::ListFile(name) => assert_eq!(name, "files.txt"),
        other => panic!("{:?}", other),
    }
}

#[test]
fn version_control_is_asked_for_cached_and_other_files() {
    let mut config = WalkerConfig::default();
    assert_eq!(
        git_arguments(&config),
        vec!["ls-files", "--cached", "--others", "--exclude-standard"]
    );
    config.include_submodules = true;
    assert_eq!(
        git_arguments(&config),
        vec!["ls-files", "--cached", "--others", "--exclude-standard", "--recurse-submodules"]
    );
}

#[test]
fn listed_paths_are_lines() {
    assert_eq!(list_file_paths("a.rs\n\n  \n b.py \r\nc.js"), vec!["a.rs", " b.py ", "c.js"]);
    assert!(list_file_paths("").is_empty());
    assert_eq!(git_listed_paths("a.rs\n\nb.py\n"), vec!["a.rs", "", "b.py"]);
}

#[test]
fn node_modules_is_left_out_unless_the_defaults_are_off() {
    let ignored = |config: &WalkerConfig, path: &str, is_dir: bool| -> bool {
        let mut overrides = ignore::overrides::OverrideBuilder::new("a");
        for glob in exclude_globs(config) {
            overrides.add(&glob).unwrap();
        }
        overrides.build().unwrap().matched(path, is_dir).is_ignore()
    };
    let defaults = WalkerConfig::default();
    assert!(ignored(&defaults, "a/node_modules", true));
    assert!(ignored(&defaults, "a/x/node_modules", true));
    assert!(ignored(&defaults, "a/target", true));
    assert!(!ignored(&defaults, "a/src", true));
    assert!(!ignored(&defaults, "a/foo.js", false));
    let mut off = WalkerConfig::default();
    off.exclude_dirs.clear();
    assert!(!ignored(&off, "a/node_modules", true));
    let files = vec![candidate("a/node_modules/foo.js")];
    assert_eq!(walk(&files, &off).len(), 1);
    assert_eq!(walk(&files, &off)[0].language.name, "JavaScript");
}
