use snipperclipper::collection::Snippets;
use snipperclipper::config::Config;
use snipperclipper::connections::{Storage, JSON};
use snipperclipper::lang::Language;
use snipperclipper::snippet::Snippet;
use snipperclipper::{Error, Persist};

fn snip(id: &str, name: &str, body: &str, lang: Language) -> Snippet {
    Snippet {
        id: id.to_string(),
        name: name.to_string(),
        folder: "folder".to_string(),
        body: body.to_string(),
        language: lang,
    }
}

#[test]
fn collection_document_has_the_expected_shape() {
    let mut col = Snippets::default(Storage::default());
    let all_before = col.list_all().len();
    assert_eq!(all_before, 1);
    col.add(Snippet {
        id: "k".to_string(),
        name: "n".to_string(),
        folder: String::new(),
        body: "b".to_string(),
        language: Language::Go,
    });
    let doc = col.save();
    assert!(doc.starts_with('['));
    assert!(doc.ends_with(']'));
    assert!(doc.contains("{\"id\":\"k\",\"name\":\"n\",\"folder\":\"\",\"body\":\"b\",\"language\":\"Go\"}"));
}

#[test]
fn collection_round_trip_restores_everything() {
    let mut col = Snippets::default(Storage::default());
    col.add(snip("id-1", "quote\"and\\slash", "line1\nline2\ttabbed\r", Language::Rust));
    col.add(snip("id-2", "plain", "fn main() {}", Language::Go));
    let doc = col.save();
    let fresh = Snippets::default(Storage::default());
    let (loaded, used_default) = fresh.load(Some(&doc));
    assert!(!used_default);
    let orig = col.list_all();
    let back = loaded.list_all();
    assert_eq!(orig.len(), back.len());
    for (a, b) in orig.iter().zip(back.iter()) {
        assert_eq!(a.id, b.id);
        assert_eq!(a.name, b.name);
        assert_eq!(a.folder, b.folder);
        assert_eq!(a.body, b.body);
        assert_eq!(a.language, b.language);
    }
}

#[test]
fn every_language_tag_round_trips() {
    let langs = [
        Language::Go,
        Language::Rust,
        Language::Python,
        Language::C,
        Language::Bash,
        Language::Cpp,
        Language::Java,
        Language::Miscellaneous,
    ];
    let mut col = Snippets::default(Storage::default());
    for (i, l) in langs.iter().enumerate() {
        col.add(snip(&format!("id-{}", i), &format!("n{}", i), "b", *l));
    }
    let doc = col.save();
    let (loaded, used_default) = Snippets::default(Storage::default()).load(Some(&doc));
    assert!(!used_default);
    let back = loaded.list_all();
    assert_eq!(back.len(), langs.len() + 1);
    for (i, l) in langs.iter().enumerate() {
        assert_eq!(back[i + 1].language, *l);
    }
}

#[test]
fn unknown_language_tag_on_disk_is_rejected() {
    let doc = "[{\"id\":\"k\",\"name\":\"n\",\"folder\":\"\",\"body\":\"b\",\"language\":\"Perl\"}]"
        .to_string();
    let (_, used_default) = Snippets::default(Storage::default()).load(Some(&doc));
    assert!(used_default);
}

#[test]
fn load_falls_back_to_defaults_on_missing_text() {
    let fresh = Snippets::default(Storage::default());
    let (loaded, used_default) = fresh.load(None);
    assert!(used_default);
    let all = loaded.list_all();
    assert_eq!(all.len(), 1);
    assert_eq!(all[0].name, "New Snippet");
}

#[test]
fn load_falls_back_to_defaults_on_malformed_text() {
    let fresh = Snippets::default(Storage::default());
    let garbage = "not a document".to_string();
    let (loaded, used_default) = fresh.load(Some(&garbage));
    assert!(used_default);
    assert_eq!(loaded.list_all().len(), 1);

    let fresh = Snippets::default(Storage::default());
    let truncated = "[{\"id\":\"k\",\"name\":\"n\"".to_string();
    let (_, used_default) = fresh.load(Some(&truncated));
    assert!(used_default);
}

#[test]
fn config_document_and_round_trip() {
    let cfg = Config::default(Storage::default());
    assert_eq!(cfg.theme(), "Yes");
    let doc = cfg.save();
    assert_eq!(doc, "{\"theme\":\"Yes\"}");

    let mut other = Config::default(Storage::default());
    let dark = "{\"theme\":\"dark\"}".to_string();
    let used_default = other.read(Some(&dark));
    assert!(!used_default);
    assert_eq!(other.theme(), "dark");
    assert_eq!(other.save(), dark);
}

#[test]
fn config_read_falls_back_on_bad_or_missing_text() {
    let mut cfg = Config::default(Storage::default());
    let bad = "{\"theme\":".to_string();
    assert!(cfg.read(Some(&bad)));
    assert_eq!(cfg.theme(), "Yes");
    assert!(cfg.read(None));
    assert_eq!(cfg.theme(), "Yes");
}

#[test]
fn config_load_uses_the_document_theme() {
    let prior = Config::default(Storage::default());
    let doc = "{\"theme\":\"light\"}".to_string();
    let (loaded, used_default) = prior.load(Some(&doc));
    assert!(!used_default);
    assert_eq!(loaded.theme(), "light");
}

#[test]
fn storage_descriptor_is_the_path_it_was_made_with() {
    let path = "/tmp/snippets.json".to_string();
    let json = JSON::new(&path);
    let storage = Storage::JSON(json);
    assert_eq!(storage.descriptor(), &path);
    let blank = JSON::default();
    assert_eq!(blank.path, "");
}

#[test]
fn error_kinds_are_distinct() {
    assert_ne!(Error::Connection, Error::Serialization);
    assert_ne!(Error::Serialization, Error::Io);
    assert_ne!(Error::Connection, Error::Io);
}
