use snipperclipper::lang::Language;
use snipperclipper::snippet::Snippet;

#[test]
fn plain_name_is_unclassified() {
    let (folder, name, lang) = Snippet::parse_name("name");
    assert_eq!(folder, "");
    assert_eq!(name, "name");
    assert_eq!(lang, Language::Miscellaneous);
}

#[test]
fn folder_and_extension() {
    let (folder, name, lang) = Snippet::parse_name("utils/helper.go");
    assert_eq!(folder, "utils");
    assert_eq!(name, "helper");
    assert_eq!(lang, Language::Go);
}

#[test]
fn extension_without_folder() {
    let (folder, name, lang) = Snippet::parse_name("script.py");
    assert_eq!(folder, "");
    assert_eq!(name, "script");
    assert_eq!(lang, Language::Python);
}

#[test]
fn readme_is_miscellaneous() {
    let (folder, name, lang) = Snippet::parse_name("README");
    assert_eq!(folder, "");
    assert_eq!(name, "README");
    assert_eq!(lang, Language::Miscellaneous);
}

#[test]
fn empty_specifier_does_not_fail() {
    let (folder, name, lang) = Snippet::parse_name("");
    assert_eq!(folder, "");
    assert_eq!(name, "");
    assert_eq!(lang, Language::Miscellaneous);
}

#[test]
fn lone_slash_yields_empty_parts() {
    let (folder, name, lang) = Snippet::parse_name("/");
    assert_eq!(folder, "");
    assert_eq!(name, "");
    assert_eq!(lang, Language::Miscellaneous);
}

#[test]
fn lone_dot_yields_empty_parts() {
    let (folder, name, lang) = Snippet::parse_name(".");
    assert_eq!(folder, "");
    assert_eq!(name, "");
    assert_eq!(lang, Language::Miscellaneous);
}

#[test]
fn first_dot_wins_on_multi_dot_names() {
    // "tar" is the classified token; ".gz" is discarded with it.
    let (folder, name, lang) = Snippet::parse_name("name.tar.gz");
    assert_eq!(folder, "");
    assert_eq!(name, "name");
    assert_eq!(lang, Language::Miscellaneous);
}

#[test]
fn first_slash_wins() {
    let (folder, name, lang) = Snippet::parse_name("a/b/c.rs");
    assert_eq!(folder, "a");
    assert_eq!(name, "b/c");
    assert_eq!(lang, Language::Rust);
}

#[test]
fn from_string_carries_parsed_parts_and_body() {
    let s = Snippet::from_string("utils/helper.go", "package main");
    assert_eq!(s.folder, "utils");
    assert_eq!(s.name, "helper");
    assert_eq!(s.language, Language::Go);
    assert_eq!(s.body, "package main");
}

#[test]
fn fresh_ids_differ_between_snippets() {
    let a = Snippet::from_string("a", "x");
    let b = Snippet::from_string("a", "x");
    assert_ne!(a.id, b.id);
}
