//! The snippet entity: an identified, named, grouped text fragment with a
//! language tag, and the compound-name parser that derives folder, name and
//! language from a single specifier string.
use vstd::prelude::*;

verus! {

use crate::lang::{spec_classify, Language};
use crate::text::{chars_first_pos, chars_to_string, first_pos, lemma_first_pos, str_to_chars};
use vstd::string::StringExecFns;

/// The mathematical model of a snippet: its fields as plain sequences.
pub struct SnippetModel {
    pub id: Seq<char>,
    pub name: Seq<char>,
    pub folder: Seq<char>,
    pub body: Seq<char>,
    pub language: Language,
}

/// A single stored text fragment. The id is assigned once at creation and
/// never changed; the empty folder means ungrouped; the body is opaque.
#[derive(Debug)]
pub struct Snippet {
    pub id: String,
    pub name: String,
    pub folder: String,
    pub body: String,
    pub language: Language,
}

impl Clone for Snippet {
    /// An equal snippet, field for field, the id included.
    fn clone(&self) -> (r: Snippet)
        ensures
            r == *self,
    {
        Snippet {
            id: self.id.clone(),
            name: self.name.clone(),
            folder: self.folder.clone(),
            body: self.body.clone(),
            language: self.language,
        }
    }
}

impl View for Snippet {
    type V = SnippetModel;

    open spec fn view(&self) -> SnippetModel {
        SnippetModel {
            id: self.id@,
            name: self.name@,
            folder: self.folder@,
            body: self.body@,
            language: self.language,
        }
    }
}

/// Relies on `uuid::Uuid::new_v4` and its `Display`: a freshly drawn random
/// version-4 identifier, written in its hyphenated string form. The result
/// is random, so nothing is promised of it.
#[verifier::external_body]
fn fresh_id() -> String {
    uuid::Uuid::new_v4().to_string()
}

/// What parsing a compound specifier yields: split at the first `/` into
/// folder and remainder (no `/` meaning ungrouped), then split the
/// remainder at its first `.` into name and extension token, the token
/// classified into a language (`Miscellaneous` when there is no `.`).
pub open spec fn spec_parse_name(raw: Seq<char>) -> (Seq<char>, Seq<char>, Language) {
    let p = first_pos(raw, '/');
    let folder = if p < raw.len() {
        raw.take(p)
    } else {
        Seq::<char>::empty()
    };
    let rem = if p < raw.len() {
        raw.skip(p + 1)
    } else {
        raw
    };
    let q = first_pos(rem, '.');
    if q < rem.len() {
        (folder, rem.take(q), spec_classify(rem.skip(q + 1)))
    } else {
        (folder, rem, Language::Miscellaneous)
    }
}

/// Copies `v[from..to]` into a fresh string.
fn chars_sub_string(v: &Vec<char>, from: usize, to: usize) -> (s: String)
    requires
        from <= to <= v@.len(),
    ensures
        s@ == v@.subrange(from as int, to as int),
{
    let mut out: Vec<char> = Vec::new();
    let mut i: usize = from;
    while i < to
        invariant
            from <= i <= to <= v@.len(),
            out@ == v@.subrange(from as int, i as int),
        decreases to - i,
    {
        out.push(v[i]);
        i = i + 1;
        proof {
            assert(out@ =~= v@.subrange(from as int, i as int));
        }
    }
    chars_to_string(&out)
}

impl Snippet {
    /// Splits a compound specifier into folder, name and language. A
    /// specifier without `/` and `.` is the whole name, ungrouped and
    /// unclassified; an empty specifier, or one of `/` or `.` alone, yields
    /// empty parts and `Miscellaneous`, never a failure.
    pub fn parse_name(raw: &str) -> (r: (String, String, Language))
        ensures
            (r.0@, r.1@, r.2) == spec_parse_name(raw@),
    {
        let v = str_to_chars(raw);
        proof {
            lemma_first_pos(v@, '/');
        }
        let p = chars_first_pos(&v, '/');
        let (folder, rem_from) = if p < v.len() {
            (chars_sub_string(&v, 0, p), p + 1)
        } else {
            (String::new(), 0)
        };
        proof {
            assert(v@.subrange(0, v@.len() as int) =~= v@);
            if p < v@.len() {
                assert(v@.subrange(rem_from as int, v@.len() as int) =~= v@.skip(p + 1));
            } else {
                assert(v@.subrange(0, v@.len() as int) =~= v@);
            }
        }
        let mut rem: Vec<char> = Vec::new();
        let mut i: usize = rem_from;
        while i < v.len()
            invariant
                rem_from <= i <= v@.len(),
                rem@ == v@.subrange(rem_from as int, i as int),
            decreases v@.len() - i,
        {
            rem.push(v[i]);
            i = i + 1;
            proof {
                assert(rem@ =~= v@.subrange(rem_from as int, i as int));
            }
        }
        proof {
            lemma_first_pos(rem@, '.');
        }
        let q = chars_first_pos(&rem, '.');
        if q < rem.len() {
            let name = chars_sub_string(&rem, 0, q);
            let ext = chars_sub_string(&rem, q + 1, rem.len());
            let lang = Language::classify(ext.as_str());
            proof {
                assert(rem@.take(first_pos(rem@, '.')) =~= rem@.subrange(0, q as int));
                assert(rem@.skip(first_pos(rem@, '.') + 1) =~= rem@.subrange(
                    q + 1,
                    rem@.len() as int,
                ));
            }
            (folder, name, lang)
        } else {
            let name = chars_to_string(&rem);
            proof {
                assert(rem@ =~= v@.subrange(rem_from as int, v@.len() as int));
            }
            (folder, name, Language::Miscellaneous)
        }
    }

    /// Builds a snippet from a compound specifier and a body, drawing a
    /// fresh id.
    pub fn from_string(full_name: &str, body: &str) -> (s: Snippet)
        ensures
            ({
                let (folder, name, language) = spec_parse_name(full_name@);
                s@.folder == folder && s@.name == name && s@.language == language && s@.body
                    == body@
            }),
    {
        let (folder, name, language) = Snippet::parse_name(full_name);
        Snippet { id: fresh_id(), name, folder, body: body.to_owned(), language }
    }

    /// Whether a model carries the default template's fields (the id is
    /// freshly drawn, so it is left free).
    pub open spec fn is_default_model(m: SnippetModel) -> bool {
        m.name == "New Snippet"@ && m.folder == Seq::<char>::empty() && m.body == "Lorem Ipsum"@
            && m.language == Language::Miscellaneous
    }

    /// The default template snippet, with a fresh id.
    pub fn default() -> (s: Snippet)
        ensures
            Snippet::is_default_model(s@),
    {
        Snippet {
            id: fresh_id(),
            name: String::from_str("New Snippet"),
            folder: String::new(),
            body: String::from_str("Lorem Ipsum"),
            language: Language::Miscellaneous,
        }
    }
}

/// A specifier free of `/` and `.` parses to itself as the name, with no
/// folder and the `Miscellaneous` language.
pub proof fn lemma_parse_plain_name(raw: Seq<char>)
    requires
        forall|i: int| 0 <= i < raw.len() ==> raw[i] != '/' && raw[i] != '.',
    ensures
        spec_parse_name(raw) == (Seq::<char>::empty(), raw, Language::Miscellaneous),
{
    lemma_first_pos(raw, '/');
    lemma_first_pos(raw, '.');
    if first_pos(raw, '/') < raw.len() {
        assert(raw[first_pos(raw, '/')] == '/');
    }
    if first_pos(raw, '.') < raw.len() {
        assert(raw[first_pos(raw, '.')] == '.');
    }
}

} // verus!
