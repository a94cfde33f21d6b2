use snipperclipper::collection::Snippets;
use snipperclipper::connections::Storage;
use snipperclipper::lang::Language;
use snipperclipper::snippet::Snippet;

fn snip(id: &str, name: &str, lang: Language) -> Snippet {
    Snippet {
        id: id.to_string(),
        name: name.to_string(),
        folder: String::new(),
        body: format!("body of {}", name),
        language: lang,
    }
}

fn empty_collection() -> Snippets {
    // default() starts with one template snippet named "New Snippet";
    // queries below use names that avoid it where that matters.
    Snippets::default(Storage::default())
}

#[test]
fn default_collection_holds_the_template() {
    let col = empty_collection();
    let all = col.list_all();
    assert_eq!(all.len(), 1);
    assert_eq!(all[0].name, "New Snippet");
    assert_eq!(all[0].folder, "");
    assert_eq!(all[0].body, "Lorem Ipsum");
    assert_eq!(all[0].language, Language::Miscellaneous);
}

#[test]
fn add_then_get_returns_the_same_id() {
    let mut col = empty_collection();
    col.add(snip("id-1", "alpha", Language::Go));
    let got = col.get("alpha").expect("added snippet must be found");
    assert_eq!(got.id, "id-1");
    assert_eq!(got.name, "alpha");
}

#[test]
fn get_returns_the_first_match() {
    let mut col = empty_collection();
    col.add(snip("id-1", "xnamex", Language::Go));
    col.add(snip("id-2", "name", Language::Rust));
    // "xnamex" contains "name" and stands first.
    let got = col.get("name").expect("a match exists");
    assert_eq!(got.id, "id-1");
}

#[test]
fn find_returns_matches_in_order() {
    let mut col = empty_collection();
    col.add(snip("id-1", "build.sh", Language::Bash));
    col.add(snip("id-2", "test-build", Language::Go));
    col.add(snip("id-3", "other", Language::C));
    let found = col.find("build").expect("two names contain the query");
    assert_eq!(found.len(), 2);
    assert_eq!(found[0].id, "id-1");
    assert_eq!(found[1].id, "id-2");
}

#[test]
fn find_is_case_sensitive_and_literal() {
    let mut col = empty_collection();
    col.add(snip("id-1", "Alpha", Language::Go));
    assert!(col.find("alpha").is_none());
    assert!(col.find("Alph").is_some());
}

#[test]
fn find_returns_absent_when_nothing_matches() {
    let col = empty_collection();
    assert!(col.find("no such name").is_none());
    assert!(col.get("no such name").is_none());
}

#[test]
fn list_by_lang_filters_exactly() {
    let mut col = empty_collection();
    col.add(snip("id-1", "a", Language::Go));
    col.add(snip("id-2", "b", Language::Rust));
    col.add(snip("id-3", "c", Language::Go));
    let goes = col.list_by_lang("go").expect("go is scopable");
    assert_eq!(goes.len(), 2);
    assert_eq!(goes[0].id, "id-1");
    assert_eq!(goes[1].id, "id-3");
    let javas = col.list_by_lang("java").expect("java is scopable");
    assert_eq!(javas.len(), 0);
}

#[test]
fn list_by_lang_cannot_scope_by_miscellaneous() {
    let col = empty_collection();
    assert!(col.list_by_lang("exe").is_none());
    assert!(col.list_by_lang("").is_none());
}

#[test]
fn list_all_keeps_insertion_order() {
    let mut col = empty_collection();
    col.add(snip("id-1", "first", Language::Go));
    col.add(snip("id-2", "second", Language::Rust));
    let all = col.list_all();
    assert_eq!(all.len(), 3);
    assert_eq!(all[1].id, "id-1");
    assert_eq!(all[2].id, "id-2");
}
