//! The document codec for persisted aggregates: a collection is written as
//! one text document holding its snippet records in order, a config as a
//! document holding its theme. The encoder and the parser are both
//! verified, and parsing a written document provably restores the records.
use vstd::prelude::*;

verus! {

use crate::lang::Language;
use crate::snippet::{Snippet, SnippetModel};
use crate::text::push_all;

/// How one character is written inside a quoted string: quote, backslash,
/// newline, carriage return and tab are escaped, everything else stands
/// as itself.
pub open spec fn esc_char(c: char) -> Seq<char> {
    if c == '"' {
        seq!['\\', '"']
    } else if c == '\\' {
        seq!['\\', '\\']
    } else if c == '\n' {
        seq!['\\', 'n']
    } else if c == '\r' {
        seq!['\\', 'r']
    } else if c == '\t' {
        seq!['\\', 't']
    } else {
        seq![c]
    }
}

/// The character an escape letter stands for, if any.
pub open spec fn unesc_char(c: char) -> Option<char> {
    if c == '"' {
        Option::Some('"')
    } else if c == '\\' {
        Option::Some('\\')
    } else if c == 'n' {
        Option::Some('\n')
    } else if c == 'r' {
        Option::Some('\r')
    } else if c == 't' {
        Option::Some('\t')
    } else {
        Option::None
    }
}

/// A string's characters, escaped.
pub open spec fn esc_seq(s: Seq<char>) -> Seq<char>
    decreases s.len(),
{
    if s.len() == 0 {
        Seq::<char>::empty()
    } else {
        esc_char(s[0]) + esc_seq(s.drop_first())
    }
}

/// A string written as a quoted field value.
pub open spec fn quoted(s: Seq<char>) -> Seq<char> {
    seq!['"'] + esc_seq(s) + seq!['"']
}

/// The opening of a record and its first field key.
pub open spec fn key_id() -> Seq<char> {
    seq!['{', '"', 'i', 'd', '"', ':']
}

pub open spec fn key_name() -> Seq<char> {
    seq![',', '"', 'n', 'a', 'm', 'e', '"', ':']
}

pub open spec fn key_folder() -> Seq<char> {
    seq![',', '"', 'f', 'o', 'l', 'd', 'e', 'r', '"', ':']
}

pub open spec fn key_body() -> Seq<char> {
    seq![',', '"', 'b', 'o', 'd', 'y', '"', ':']
}

pub open spec fn key_language() -> Seq<char> {
    seq![',', '"', 'l', 'a', 'n', 'g', 'u', 'a', 'g', 'e', '"', ':']
}

pub open spec fn key_theme() -> Seq<char> {
    seq!['{', '"', 't', 'h', 'e', 'm', 'e', '"', ':']
}

/// A language tag written as a quoted field value (tags hold no character
/// that needs escaping).
pub open spec fn lang_doc(l: Language) -> Seq<char> {
    seq!['"'] + l.spec_tag() + seq!['"']
}

/// One snippet record as written to disk.
pub open spec fn snippet_doc(m: SnippetModel) -> Seq<char> {
    key_id() + quoted(m.id) + key_name() + quoted(m.name) + key_folder() + quoted(m.folder)
        + key_body() + quoted(m.body) + key_language() + lang_doc(m.language) + seq!['}']
}

/// The records of a collection, comma-separated.
pub open spec fn items_doc(l: Seq<SnippetModel>) -> Seq<char>
    decreases l.len(),
{
    if l.len() == 0 {
        Seq::<char>::empty()
    } else if l.len() == 1 {
        snippet_doc(l[0])
    } else {
        snippet_doc(l[0]) + seq![','] + items_doc(l.drop_first())
    }
}

/// A whole collection document.
pub open spec fn snippets_doc(l: Seq<SnippetModel>) -> Seq<char> {
    seq!['['] + items_doc(l) + seq![']']
}

/// A whole config document.
pub open spec fn config_doc(theme: Seq<char>) -> Seq<char> {
    key_theme() + quoted(theme) + seq!['}']
}

/// Appends the escape form of one character.
fn push_esc_char(out: &mut Vec<char>, c: char)
    ensures
        final(out)@ == old(out)@ + esc_char(c),
{
    if c == '"' {
        out.push('\\');
        out.push('"');
    } else if c == '\\' {
        out.push('\\');
        out.push('\\');
    } else if c == '\n' {
        out.push('\\');
        out.push('n');
    } else if c == '\r' {
        out.push('\\');
        out.push('r');
    } else if c == '\t' {
        out.push('\\');
        out.push('t');
    } else {
        out.push(c);
    }
    proof {
        assert(out@ =~= old(out)@ + esc_char(c));
    }
}

/// Escaping a string one character longer appends that character's escape
/// form.
proof fn lemma_esc_seq_snoc(s: Seq<char>, c: char)
    ensures
        esc_seq(s.push(c)) == esc_seq(s) + esc_char(c),
    decreases s.len(),
{
    if s.len() == 0 {
        assert(s.push(c).drop_first() =~= Seq::<char>::empty());
        assert(s.push(c)[0] == c);
        assert(esc_seq(s.push(c)) == esc_char(c) + esc_seq(Seq::<char>::empty()));
        assert(esc_char(c) + esc_seq(Seq::<char>::empty()) =~= esc_seq(s) + esc_char(c));
    } else {
        lemma_esc_seq_snoc(s.drop_first(), c);
        assert(s.push(c).drop_first() =~= s.drop_first().push(c));
        assert(s.push(c)[0] == s[0]);
        assert(esc_seq(s.push(c)) =~= esc_seq(s) + esc_char(c));
    }
}

/// Appends a string as a quoted, escaped field value.
fn push_quoted(out: &mut Vec<char>, s: &Vec<char>)
    ensures
        final(out)@ == old(out)@ + quoted(s@),
{
    out.push('"');
    let mut i: usize = 0;
    while i < s.len()
        invariant
            i <= s@.len(),
            out@ == old(out)@ + seq!['"'] + esc_seq(s@.take(i as int)),
        decreases s@.len() - i,
    {
        let c = s[i];
        push_esc_char(out, c);
        proof {
            lemma_esc_seq_snoc(s@.take(i as int), c);
            assert(s@.take(i + 1) =~= s@.take(i as int).push(c));
            assert(out@ =~= old(out)@ + seq!['"'] + esc_seq(s@.take(i + 1)));
        }
        i = i + 1;
    }
    out.push('"');
    proof {
        assert(s@.take(s@.len() as int) =~= s@);
        assert(out@ =~= old(out)@ + quoted(s@));
    }
}

/// Appends one snippet record.
fn push_snippet_doc(out: &mut Vec<char>, s: &Snippet)
    ensures
        final(out)@ == old(out)@ + snippet_doc(s@),
{
    let kid: Vec<char> = vec!['{', '"', 'i', 'd', '"', ':'];
    let kname: Vec<char> = vec![',', '"', 'n', 'a', 'm', 'e', '"', ':'];
    let kfolder: Vec<char> = vec![',', '"', 'f', 'o', 'l', 'd', 'e', 'r', '"', ':'];
    let kbody: Vec<char> = vec![',', '"', 'b', 'o', 'd', 'y', '"', ':'];
    let klanguage: Vec<char> = vec![',', '"', 'l', 'a', 'n', 'g', 'u', 'a', 'g', 'e', '"', ':'];
    proof {
        assert(kid@ =~= key_id());
        assert(kname@ =~= key_name());
        assert(kfolder@ =~= key_folder());
        assert(kbody@ =~= key_body());
        assert(klanguage@ =~= key_language());
    }
    let id_chars = crate::text::str_to_chars(s.id.as_str());
    let name_chars = crate::text::str_to_chars(s.name.as_str());
    let folder_chars = crate::text::str_to_chars(s.folder.as_str());
    let body_chars = crate::text::str_to_chars(s.body.as_str());
    push_all(out, &kid);
    push_quoted(out, &id_chars);
    push_all(out, &kname);
    push_quoted(out, &name_chars);
    push_all(out, &kfolder);
    push_quoted(out, &folder_chars);
    push_all(out, &kbody);
    push_quoted(out, &body_chars);
    push_all(out, &klanguage);
    out.push('"');
    let tag = s.language.tag_chars();
    push_all(out, &tag);
    out.push('"');
    out.push('}');
    proof {
        assert(out@ =~= old(out)@ + snippet_doc(s@));
    }
}

/// The models of a vector of snippets, in order.
pub open spec fn models_of(v: Seq<Snippet>) -> Seq<SnippetModel> {
    v.map_values(|s: Snippet| s@)
}

/// Writes a whole collection document.
pub fn encode_snippets(v: &Vec<Snippet>) -> (doc: Vec<char>)
    ensures
        doc@ == snippets_doc(models_of(v@)),
{
    let mut out: Vec<char> = Vec::new();
    out.push('[');
    let mut i: usize = 0;
    while i < v.len()
        invariant
            i <= v@.len(),
            out@ == seq!['['] + items_doc(models_of(v@).take(i as int)),
        decreases v@.len() - i,
    {
        if i > 0 {
            out.push(',');
        }
        push_snippet_doc(&mut out, &v[i]);
        proof {
            let ms = models_of(v@);
            assert(ms.take(i + 1) =~= ms.take(i as int).push(ms[i as int]));
            assert(ms[i as int] == v@[i as int]@);
            if i == 0 {
                assert(ms.take(1)[0] == ms[0]);
                assert(items_doc(ms.take(1)) == snippet_doc(ms[0]));
                assert(out@ =~= seq!['['] + items_doc(ms.take(i + 1)));
            } else {
                lemma_items_doc_snoc(ms.take(i as int), ms[i as int]);
                assert(out@ =~= seq!['['] + items_doc(ms.take(i + 1)));
            }
        }
        i = i + 1;
    }
    out.push(']');
    proof {
        assert(models_of(v@).take(v@.len() as int) =~= models_of(v@));
        assert(out@ =~= snippets_doc(models_of(v@)));
    }
    out
}

/// Appending one record to a non-empty list appends a comma and that
/// record to the document.
proof fn lemma_items_doc_snoc(l: Seq<SnippetModel>, m: SnippetModel)
    requires
        l.len() >= 1,
    ensures
        items_doc(l.push(m)) == items_doc(l) + seq![','] + snippet_doc(m),
    decreases l.len(),
{
    if l.len() == 1 {
        assert(l.push(m).drop_first() =~= seq![m]);
        assert(items_doc(seq![m]) == snippet_doc(m));
        assert(items_doc(l.push(m)) =~= items_doc(l) + seq![','] + snippet_doc(m));
    } else {
        lemma_items_doc_snoc(l.drop_first(), m);
        assert(l.push(m).drop_first() =~= l.drop_first().push(m));
        assert(l.push(m)[0] == l[0]);
        assert(items_doc(l.push(m)) =~= items_doc(l) + seq![','] + snippet_doc(m));
    }
}

/// What reading a quoted string's remainder (after its opening quote)
/// yields: the unescaped characters up to the closing quote, and the
/// position after that quote. A truncated or ill-escaped run yields
/// nothing.
pub open spec fn parse_str_rest(s: Seq<char>, i: int) -> Option<(Seq<char>, int)>
    decreases s.len() - i,
{
    if i < 0 || i >= s.len() {
        Option::None
    } else if s[i] == '"' {
        Option::Some((Seq::<char>::empty(), i + 1))
    } else if s[i] == '\\' {
        if i + 1 >= s.len() {
            Option::None
        } else {
            match unesc_char(s[i + 1]) {
                Option::None => Option::None,
                Option::Some(c) => match parse_str_rest(s, i + 2) {
                    Option::None => Option::None,
                    Option::Some((t, j)) => Option::Some((seq![c] + t, j)),
                },
            }
        }
    } else {
        match parse_str_rest(s, i + 1) {
            Option::None => Option::None,
            Option::Some((t, j)) => Option::Some((seq![s[i]] + t, j)),
        }
    }
}

/// What reading a quoted string at `i` yields.
pub open spec fn parse_quoted(s: Seq<char>, i: int) -> Option<(Seq<char>, int)> {
    if 0 <= i < s.len() && s[i] == '"' {
        parse_str_rest(s, i + 1)
    } else {
        Option::None
    }
}

/// Whether `lit` stands at `i`; on success the position after it.
pub open spec fn parse_lit(s: Seq<char>, i: int, lit: Seq<char>) -> Option<int> {
    if 0 <= i && i + lit.len() <= s.len() && s.subrange(i, i + lit.len()) == lit {
        Option::Some(i + lit.len())
    } else {
        Option::None
    }
}

/// What reading a quoted language tag at `i` yields: the first fixed tag
/// that stands there (no tag is a prefix of another's start).
pub open spec fn parse_lang(s: Seq<char>, i: int) -> Option<(Language, int)> {
    if parse_lit(s, i, lang_doc(Language::Go)) is Some {
        Option::Some((Language::Go, parse_lit(s, i, lang_doc(Language::Go))->Some_0))
    } else if parse_lit(s, i, lang_doc(Language::Rust)) is Some {
        Option::Some((Language::Rust, parse_lit(s, i, lang_doc(Language::Rust))->Some_0))
    } else if parse_lit(s, i, lang_doc(Language::Python)) is Some {
        Option::Some((Language::Python, parse_lit(s, i, lang_doc(Language::Python))->Some_0))
    } else if parse_lit(s, i, lang_doc(Language::C)) is Some {
        Option::Some((Language::C, parse_lit(s, i, lang_doc(Language::C))->Some_0))
    } else if parse_lit(s, i, lang_doc(Language::Bash)) is Some {
        Option::Some((Language::Bash, parse_lit(s, i, lang_doc(Language::Bash))->Some_0))
    } else if parse_lit(s, i, lang_doc(Language::Cpp)) is Some {
        Option::Some((Language::Cpp, parse_lit(s, i, lang_doc(Language::Cpp))->Some_0))
    } else if parse_lit(s, i, lang_doc(Language::Java)) is Some {
        Option::Some((Language::Java, parse_lit(s, i, lang_doc(Language::Java))->Some_0))
    } else if parse_lit(s, i, lang_doc(Language::Miscellaneous)) is Some {
        Option::Some(
            (Language::Miscellaneous, parse_lit(s, i, lang_doc(Language::Miscellaneous))->Some_0),
        )
    } else {
        Option::None
    }
}

/// What reading one snippet record at `i` yields.
pub open spec fn parse_snippet(s: Seq<char>, i: int) -> Option<(SnippetModel, int)> {
    match parse_lit(s, i, key_id()) {
        Option::None => Option::None,
        Option::Some(j1) => match parse_quoted(s, j1) {
            Option::None => Option::None,
            Option::Some((id, j2)) => match parse_lit(s, j2, key_name()) {
                Option::None => Option::None,
                Option::Some(j3) => match parse_quoted(s, j3) {
                    Option::None => Option::None,
                    Option::Some((name, j4)) => match parse_lit(s, j4, key_folder()) {
                        Option::None => Option::None,
                        Option::Some(j5) => match parse_quoted(s, j5) {
                            Option::None => Option::None,
                            Option::Some((folder, j6)) => match parse_lit(s, j6, key_body()) {
                                Option::None => Option::None,
                                Option::Some(j7) => match parse_quoted(s, j7) {
                                    Option::None => Option::None,
                                    Option::Some((body, j8)) => match parse_lit(
                                        s,
                                        j8,
                                        key_language(),
                                    ) {
                                        Option::None => Option::None,
                                        Option::Some(j9) => match parse_lang(s, j9) {
                                            Option::None => Option::None,
                                            Option::Some((language, j10)) => match parse_lit(
                                                s,
                                                j10,
                                                seq!['}'],
                                            ) {
                                                Option::None => Option::None,
                                                Option::Some(j11) => Option::Some(
                                                    (
                                                        SnippetModel {
                                                            id,
                                                            name,
                                                            folder,
                                                            body,
                                                            language,
                                                        },
                                                        j11,
                                                    ),
                                                ),
                                            },
                                        },
                                    },
                                },
                            },
                        },
                    },
                },
            },
        },
    }
}

/// What reading a comma-separated run of records at `i` yields.
pub open spec fn parse_items(s: Seq<char>, i: int) -> Option<(Seq<SnippetModel>, int)>
    decreases s.len() - i,
{
    match parse_snippet(s, i) {
        Option::None => Option::None,
        Option::Some((m, j)) => if j <= i || j > s.len() {
            Option::None
        } else if j < s.len() && s[j] == ',' {
            match parse_items(s, j + 1) {
                Option::None => Option::None,
                Option::Some((rest, k)) => Option::Some((seq![m] + rest, k)),
            }
        } else {
            Option::Some((seq![m], j))
        },
    }
}

/// What a whole collection document holds: the record list, when the text
/// is exactly one well-formed document.
pub open spec fn parse_snippets_doc(s: Seq<char>) -> Option<Seq<SnippetModel>> {
    if s.len() >= 2 && s[0] == '[' {
        if s.len() == 2 && s[1] == ']' {
            Option::Some(Seq::<SnippetModel>::empty())
        } else {
            match parse_items(s, 1) {
                Option::None => Option::None,
                Option::Some((l, j)) => if j + 1 == s.len() && s[j] == ']' {
                    Option::Some(l)
                } else {
                    Option::None
                },
            }
        }
    } else {
        Option::None
    }
}

/// What a whole config document holds: the theme, when the text is exactly
/// one well-formed document.
pub open spec fn parse_config_doc(s: Seq<char>) -> Option<Seq<char>> {
    match parse_lit(s, 0, key_theme()) {
        Option::None => Option::None,
        Option::Some(j) => match parse_quoted(s, j) {
            Option::None => Option::None,
            Option::Some((t, k)) => if k + 1 == s.len() && 0 <= k < s.len() && s[k] == '}' {
                Option::Some(t)
            } else {
                Option::None
            },
        },
    }
}

/// The character an escape letter stands for, if any.
fn unesc(c: char) -> (r: Option<char>)
    ensures
        r == unesc_char(c),
{
    if c == '"' {
        Option::Some('"')
    } else if c == '\\' {
        Option::Some('\\')
    } else if c == 'n' {
        Option::Some('\n')
    } else if c == 'r' {
        Option::Some('\r')
    } else if c == 't' {
        Option::Some('\t')
    } else {
        Option::None
    }
}

/// Reads a quoted string's remainder after its opening quote.
fn p_str_rest(s: &Vec<char>, i: usize) -> (r: Option<(Vec<char>, usize)>)
    ensures
        (match r {
            Option::Some(p) => parse_str_rest(s@, i as int) == Option::Some((p.0@, p.1 as int)),
            Option::None => parse_str_rest(s@, i as int) is None,
        }),
    decreases s@.len() - i,
{
    if i >= s.len() {
        return Option::None;
    }
    let c = s[i];
    if c == '"' {
        let empty: Vec<char> = Vec::new();
        return Option::Some((empty, i + 1));
    }
    if c == '\\' {
        if i + 1 >= s.len() {
            return Option::None;
        }
        match unesc(s[i + 1]) {
            Option::None => Option::None,
            Option::Some(u) => {
                match p_str_rest(s, i + 2) {
                    Option::None => Option::None,
                    Option::Some((t, j)) => {
                        let ghost t0 = t@;
                        let mut t = t;
                        t.insert(0, u);
                        proof {
                            assert(t@ =~= seq![u] + t0);
                        }
                        Option::Some((t, j))
                    },
                }
            },
        }
    } else {
        match p_str_rest(s, i + 1) {
            Option::None => Option::None,
            Option::Some((t, j)) => {
                let ghost t0 = t@;
                let mut t = t;
                t.insert(0, c);
                proof {
                    assert(t@ =~= seq![c] + t0);
                }
                Option::Some((t, j))
            },
        }
    }
}

/// Reads a quoted string at `i`.
fn p_quoted(s: &Vec<char>, i: usize) -> (r: Option<(Vec<char>, usize)>)
    ensures
        (match r {
            Option::Some(p) => parse_quoted(s@, i as int) == Option::Some((p.0@, p.1 as int)),
            Option::None => parse_quoted(s@, i as int) is None,
        }),
{
    if i < s.len() && s[i] == '"' {
        p_str_rest(s, i + 1)
    } else {
        Option::None
    }
}

/// Tests whether `lit` stands at `i`.
fn p_lit(s: &Vec<char>, i: usize, lit: &Vec<char>) -> (r: Option<usize>)
    ensures
        (match r {
            Option::Some(j) => parse_lit(s@, i as int, lit@) == Option::Some(j as int),
            Option::None => parse_lit(s@, i as int, lit@) is None,
        }),
{
    if i > s.len() || lit.len() > s.len() - i {
        return Option::None;
    }
    let mut k: usize = 0;
    while k < lit.len()
        invariant
            s@.len() <= usize::MAX,
            i + lit@.len() <= s@.len(),
            k <= lit@.len(),
            forall|j: int| 0 <= j < k ==> s@[i + j] == lit@[j],
        decreases lit@.len() - k,
    {
        if s[i + k] != lit[k] {
            proof {
                assert(s@.subrange(i as int, i + lit@.len()) != lit@) by {
                    if s@.subrange(i as int, i + lit@.len()) == lit@ {
                        assert(s@.subrange(i as int, i + lit@.len())[k as int] == s@[i + k]);
                    }
                }
            }
            return Option::None;
        }
        k = k + 1;
    }
    proof {
        assert(s@.subrange(i as int, i + lit@.len()) =~= lit@);
    }
    Option::Some(i + lit.len())
}

/// Writes a language tag as it stands quoted in a document.
fn lang_doc_chars(l: Language) -> (v: Vec<char>)
    ensures
        v@ == lang_doc(l),
{
    let mut v: Vec<char> = Vec::new();
    v.push('"');
    let tag = l.tag_chars();
    push_all(&mut v, &tag);
    v.push('"');
    proof {
        assert(v@ =~= lang_doc(l));
    }
    v
}

/// Reads a quoted language tag at `i`.
fn p_lang(s: &Vec<char>, i: usize) -> (r: Option<(Language, usize)>)
    ensures
        (match r {
            Option::Some(p) => parse_lang(s@, i as int) == Option::Some((p.0, p.1 as int)),
            Option::None => parse_lang(s@, i as int) is None,
        }),
{
    let go = lang_doc_chars(Language::Go);
    if let Option::Some(j) = p_lit(s, i, &go) {
        return Option::Some((Language::Go, j));
    }
    let rust = lang_doc_chars(Language::Rust);
    if let Option::Some(j) = p_lit(s, i, &rust) {
        return Option::Some((Language::Rust, j));
    }
    let python = lang_doc_chars(Language::Python);
    if let Option::Some(j) = p_lit(s, i, &python) {
        return Option::Some((Language::Python, j));
    }
    let c = lang_doc_chars(Language::C);
    if let Option::Some(j) = p_lit(s, i, &c) {
        return Option::Some((Language::C, j));
    }
    let bash = lang_doc_chars(Language::Bash);
    if let Option::Some(j) = p_lit(s, i, &bash) {
        return Option::Some((Language::Bash, j));
    }
    let cpp = lang_doc_chars(Language::Cpp);
    if let Option::Some(j) = p_lit(s, i, &cpp) {
        return Option::Some((Language::Cpp, j));
    }
    let java = lang_doc_chars(Language::Java);
    if let Option::Some(j) = p_lit(s, i, &java) {
        return Option::Some((Language::Java, j));
    }
    let misc = lang_doc_chars(Language::Miscellaneous);
    if let Option::Some(j) = p_lit(s, i, &misc) {
        return Option::Some((Language::Miscellaneous, j));
    }
    Option::None
}

/// Reads one snippet record at `i`.
fn p_snippet(s: &Vec<char>, i: usize) -> (r: Option<(Snippet, usize)>)
    ensures
        (match r {
            Option::Some(p) => parse_snippet(s@, i as int) == Option::Some((p.0@, p.1 as int)),
            Option::None => parse_snippet(s@, i as int) is None,
        }),
{
    let kid: Vec<char> = vec!['{', '"', 'i', 'd', '"', ':'];
    let kname: Vec<char> = vec![',', '"', 'n', 'a', 'm', 'e', '"', ':'];
    let kfolder: Vec<char> = vec![',', '"', 'f', 'o', 'l', 'd', 'e', 'r', '"', ':'];
    let kbody: Vec<char> = vec![',', '"', 'b', 'o', 'd', 'y', '"', ':'];
    let klanguage: Vec<char> = vec![',', '"', 'l', 'a', 'n', 'g', 'u', 'a', 'g', 'e', '"', ':'];
    let kclose: Vec<char> = vec!['}'];
    proof {
        assert(kid@ =~= key_id());
        assert(kname@ =~= key_name());
        assert(kfolder@ =~= key_folder());
        assert(kbody@ =~= key_body());
        assert(klanguage@ =~= key_language());
        assert(kclose@ =~= seq!['}']);
    }
    let j1 = match p_lit(s, i, &kid) {
        Option::Some(j) => j,
        Option::None => {
            return Option::None;
        },
    };
    let (id, j2) = match p_quoted(s, j1) {
        Option::Some(p) => p,
        Option::None => {
            return Option::None;
        },
    };
    let j3 = match p_lit(s, j2, &kname) {
        Option::Some(j) => j,
        Option::None => {
            return Option::None;
        },
    };
    let (name, j4) = match p_quoted(s, j3) {
        Option::Some(p) => p,
        Option::None => {
            return Option::None;
        },
    };
    let j5 = match p_lit(s, j4, &kfolder) {
        Option::Some(j) => j,
        Option::None => {
            return Option::None;
        },
    };
    let (folder, j6) = match p_quoted(s, j5) {
        Option::Some(p) => p,
        Option::None => {
            return Option::None;
        },
    };
    let j7 = match p_lit(s, j6, &kbody) {
        Option::Some(j) => j,
        Option::None => {
            return Option::None;
        },
    };
    let (body, j8) = match p_quoted(s, j7) {
        Option::Some(p) => p,
        Option::None => {
            return Option::None;
        },
    };
    let j9 = match p_lit(s, j8, &klanguage) {
        Option::Some(j) => j,
        Option::None => {
            return Option::None;
        },
    };
    let (language, j10) = match p_lang(s, j9) {
        Option::Some(p) => p,
        Option::None => {
            return Option::None;
        },
    };
    let j11 = match p_lit(s, j10, &kclose) {
        Option::Some(j) => j,
        Option::None => {
            return Option::None;
        },
    };
    let snip = Snippet {
        id: crate::text::chars_to_string(&id),
        name: crate::text::chars_to_string(&name),
        folder: crate::text::chars_to_string(&folder),
        body: crate::text::chars_to_string(&body),
        language,
    };
    Option::Some((snip, j11))
}

/// Reads a comma-separated run of records at `i`.
fn p_items(s: &Vec<char>, i: usize) -> (r: Option<(Vec<Snippet>, usize)>)
    ensures
        (match r {
            Option::Some(p) => parse_items(s@, i as int) == Option::Some(
                (models_of(p.0@), p.1 as int),
            ),
            Option::None => parse_items(s@, i as int) is None,
        }),
    decreases s@.len() - i,
{
    match p_snippet(s, i) {
        Option::None => Option::None,
        Option::Some((m, j)) => {
            if j <= i || j > s.len() {
                return Option::None;
            }
            if j < s.len() && s[j] == ',' {
                match p_items(s, j + 1) {
                    Option::None => Option::None,
                    Option::Some((rest, k)) => {
                        let ghost r0 = rest@;
                        let mut rest = rest;
                        rest.insert(0, m);
                        proof {
                            assert(rest@ =~= seq![m] + r0);
                            assert(models_of(rest@) =~= seq![m@] + models_of(r0));
                        }
                        Option::Some((rest, k))
                    },
                }
            } else {
                let mut one: Vec<Snippet> = Vec::new();
                one.push(m);
                proof {
                    assert(models_of(one@) =~= seq![m@]);
                }
                Option::Some((one, j))
            }
        },
    }
}

/// Reads a whole collection document, when the text is exactly one
/// well-formed document.
pub fn decode_snippets(text: &str) -> (r: Option<Vec<Snippet>>)
    ensures
        (match r {
            Option::Some(v) => parse_snippets_doc(text@) == Option::Some(models_of(v@)),
            Option::None => parse_snippets_doc(text@) is None,
        }),
{
    let s = crate::text::str_to_chars(text);
    if s.len() < 2 || s[0] != '[' {
        return Option::None;
    }
    if s.len() == 2 && s[1] == ']' {
        let empty: Vec<Snippet> = Vec::new();
        proof {
            assert(models_of(empty@) =~= Seq::<SnippetModel>::empty());
        }
        return Option::Some(empty);
    }
    match p_items(&s, 1) {
        Option::None => Option::None,
        Option::Some((v, j)) => {
            if j < s.len() && s[j] == ']' && j + 1 == s.len() {
                Option::Some(v)
            } else {
                Option::None
            }
        },
    }
}

/// Reads a whole config document, when the text is exactly one well-formed
/// document.
pub fn decode_config(text: &str) -> (r: Option<String>)
    ensures
        (match r {
            Option::Some(t) => parse_config_doc(text@) == Option::Some(t@),
            Option::None => parse_config_doc(text@) is None,
        }),
{
    let s = crate::text::str_to_chars(text);
    let ktheme: Vec<char> = vec!['{', '"', 't', 'h', 'e', 'm', 'e', '"', ':'];
    proof {
        assert(ktheme@ =~= key_theme());
    }
    match p_lit(&s, 0, &ktheme) {
        Option::None => Option::None,
        Option::Some(j) => match p_quoted(&s, j) {
            Option::None => Option::None,
            Option::Some((t, k)) => {
                if k < s.len() && s[k] == '}' && k + 1 == s.len() {
                    Option::Some(crate::text::chars_to_string(&t))
                } else {
                    Option::None
                }
            },
        },
    }
}

/// A literal that stands at `i` parses to the position after itself, with
/// the remainder of the text unchanged.
proof fn lemma_parse_lit_at(s: Seq<char>, i: int, lit: Seq<char>, rest: Seq<char>)
    requires
        0 <= i <= s.len(),
        s.skip(i) == lit + rest,
    ensures
        parse_lit(s, i, lit) == Option::Some(i + lit.len()),
        s.skip(i + lit.len()) == rest,
{
    lemma_skip_split(s, i, lit, rest);
    assert(s.subrange(i, i + lit.len()) =~= lit) by {
        assert(forall|k: int|
            0 <= k < lit.len() ==> #[trigger] s.subrange(i, i + lit.len())[k] == s[i + k]);
    }
}

/// When the text from `i` on is `a` followed by `b`, then `a` stands at
/// `i` character by character, and the text from `i + a.len()` on is `b`.
proof fn lemma_skip_split(s: Seq<char>, i: int, a: Seq<char>, b: Seq<char>)
    requires
        0 <= i <= s.len(),
        s.skip(i) == a + b,
    ensures
        i + a.len() <= s.len(),
        s.skip(i + a.len()) == b,
        forall|k: int| 0 <= k < a.len() ==> s[i + k] == a[k],
        a.len() > 0 ==> s[i] == a[0],
        a.len() > 1 ==> s[i + 1] == a[1],
{
    assert(s.skip(i).len() == a.len() + b.len());
    assert(forall|k: int| 0 <= k < a.len() ==> s[i + k] == a[k]) by {
        assert(forall|k: int|
            0 <= k < a.len() ==> s.skip(i)[k] == (a + b)[k] && #[trigger] s[i + k] == s.skip(
                i,
            )[k]);
    }
    if a.len() > 0 {
        assert(s[i + 0] == a[0]);
    }
    if a.len() > 1 {
        assert(s[i + 1] == a[1]);
    }
    assert(s.skip(i + a.len()) =~= b) by {
        assert(forall|k: int|
            0 <= k < b.len() ==> #[trigger] s.skip(i + a.len())[k] == s[i + a.len() + k] && s[i
                + a.len() + k] == s.skip(i)[a.len() + k] && s.skip(i)[a.len() + k] == (a + b)[a.len()
                + k]);
    }
}

/// A literal cannot stand at `i` when some character under it differs.
proof fn lemma_lit_mismatch(s: Seq<char>, i: int, lit: Seq<char>, k: int)
    requires
        0 <= i,
        0 <= k < lit.len(),
        i + k < s.len(),
        s[i + k] != lit[k],
    ensures
        parse_lit(s, i, lit) is None,
{
    if i + lit.len() <= s.len() && s.subrange(i, i + lit.len()) == lit {
        assert(s.subrange(i, i + lit.len())[k] == s[i + k]);
    }
}

/// An escaped string followed by its closing quote parses back to the
/// string itself.
proof fn lemma_parse_str_rest_rt(s: Seq<char>, i: int, t: Seq<char>, rest: Seq<char>)
    requires
        0 <= i <= s.len(),
        s.skip(i) == esc_seq(t) + seq!['"'] + rest,
    ensures
        parse_str_rest(s, i) == Option::Some((t, i + esc_seq(t).len() + 1)),
        s.skip(i + esc_seq(t).len() + 1) == rest,
    decreases t.len(),
{
    assert(s.skip(i).len() == esc_seq(t).len() + 1 + rest.len());
    if t.len() == 0 {
        assert(s.skip(i) == seq!['"'] + rest) by {
            assert(esc_seq(t) + seq!['"'] + rest =~= seq!['"'] + rest);
        }
        lemma_skip_split(s, i, seq!['"'], rest);
        assert(s[i] == '"');
    } else {
        let t0 = t[0];
        let tr = t.drop_first();
        assert(esc_seq(t) == esc_char(t0) + esc_seq(tr));
        let tail = esc_seq(tr) + seq!['"'] + rest;
        assert(s.skip(i) == esc_char(t0) + tail) by {
            assert(esc_seq(t) + seq!['"'] + rest =~= esc_char(t0) + (esc_seq(tr) + seq!['"']
                + rest));
        }
        lemma_skip_split(s, i, esc_char(t0), tail);
        if t0 == '"' || t0 == '\\' || t0 == '\n' || t0 == '\r' || t0 == '\t' {
            let e = esc_char(t0)[1];
            assert(s[i] == '\\' && s[i + 1] == e);
            assert(unesc_char(e) == Option::Some(t0));
            lemma_parse_str_rest_rt(s, i + 2, tr, rest);
            assert(seq![t0] + tr =~= t);
        } else {
            assert(esc_char(t0) =~= seq![t0]);
            assert(s[i] == t0);
            assert(s[i] != '"' && s[i] != '\\');
            lemma_parse_str_rest_rt(s, i + 1, tr, rest);
            assert(seq![t0] + tr =~= t);
        }
    }
}

/// A quoted string parses back to the string itself.
proof fn lemma_parse_quoted_rt(s: Seq<char>, i: int, t: Seq<char>, rest: Seq<char>)
    requires
        0 <= i <= s.len(),
        s.skip(i) == quoted(t) + rest,
    ensures
        parse_quoted(s, i) == Option::Some((t, i + quoted(t).len())),
        s.skip(i + quoted(t).len()) == rest,
{
    assert(s.skip(i).len() == quoted(t).len() + rest.len());
    let tail = esc_seq(t) + seq!['"'] + rest;
    assert(s.skip(i) == seq!['"'] + tail) by {
        assert(quoted(t) + rest =~= seq!['"'] + (esc_seq(t) + seq!['"'] + rest));
    }
    lemma_skip_split(s, i, seq!['"'], tail);
    assert(s[i] == '"');
    lemma_parse_str_rest_rt(s, i + 1, t, rest);
}

/// A written language tag parses back to the language itself.
proof fn lemma_parse_lang_rt(s: Seq<char>, i: int, l: Language, rest: Seq<char>)
    requires
        0 <= i <= s.len(),
        s.skip(i) == lang_doc(l) + rest,
    ensures
        parse_lang(s, i) == Option::Some((l, i + lang_doc(l).len())),
        s.skip(i + lang_doc(l).len()) == rest,
{
    lemma_parse_lit_at(s, i, lang_doc(l), rest);
    assert(s.skip(i)[1] == lang_doc(l)[1]);
    assert(s[i + 1] == l.spec_tag()[0]);
    match l {
        Language::Go => {
        },
        Language::Rust => {
            lemma_lit_mismatch(s, i, lang_doc(Language::Go), 1);
        },
        Language::Python => {
            lemma_lit_mismatch(s, i, lang_doc(Language::Go), 1);
            lemma_lit_mismatch(s, i, lang_doc(Language::Rust), 1);
        },
        Language::C => {
            lemma_lit_mismatch(s, i, lang_doc(Language::Go), 1);
            lemma_lit_mismatch(s, i, lang_doc(Language::Rust), 1);
            lemma_lit_mismatch(s, i, lang_doc(Language::Python), 1);
        },
        Language::Bash => {
            lemma_lit_mismatch(s, i, lang_doc(Language::Go), 1);
            lemma_lit_mismatch(s, i, lang_doc(Language::Rust), 1);
            lemma_lit_mismatch(s, i, lang_doc(Language::Python), 1);
            lemma_lit_mismatch(s, i, lang_doc(Language::C), 1);
        },
        Language::Cpp => {
            lemma_lit_mismatch(s, i, lang_doc(Language::Go), 1);
            lemma_lit_mismatch(s, i, lang_doc(Language::Rust), 1);
            lemma_lit_mismatch(s, i, lang_doc(Language::Python), 1);
            assert(s.skip(i)[2] == lang_doc(l)[2]);
            assert(s[i + 2] == 'p');
            lemma_lit_mismatch(s, i, lang_doc(Language::C), 2);
            lemma_lit_mismatch(s, i, lang_doc(Language::Bash), 1);
        },
        Language::Java => {
            lemma_lit_mismatch(s, i, lang_doc(Language::Go), 1);
            lemma_lit_mismatch(s, i, lang_doc(Language::Rust), 1);
            lemma_lit_mismatch(s, i, lang_doc(Language::Python), 1);
            lemma_lit_mismatch(s, i, lang_doc(Language::C), 1);
            lemma_lit_mismatch(s, i, lang_doc(Language::Bash), 1);
            lemma_lit_mismatch(s, i, lang_doc(Language::Cpp), 1);
        },
        Language::Miscellaneous => {
            lemma_lit_mismatch(s, i, lang_doc(Language::Go), 1);
            lemma_lit_mismatch(s, i, lang_doc(Language::Rust), 1);
            lemma_lit_mismatch(s, i, lang_doc(Language::Python), 1);
            lemma_lit_mismatch(s, i, lang_doc(Language::C), 1);
            lemma_lit_mismatch(s, i, lang_doc(Language::Bash), 1);
            lemma_lit_mismatch(s, i, lang_doc(Language::Cpp), 1);
            lemma_lit_mismatch(s, i, lang_doc(Language::Java), 1);
        },
    }
}

/// A written snippet record parses back to its model.
#[verifier::rlimit(100)]
proof fn lemma_parse_snippet_rt(s: Seq<char>, i: int, m: SnippetModel, rest: Seq<char>)
    requires
        0 <= i <= s.len(),
        s.skip(i) == snippet_doc(m) + rest,
    ensures
        parse_snippet(s, i) == Option::Some((m, i + snippet_doc(m).len())),
        s.skip(i + snippet_doc(m).len()) == rest,
{
    let r10 = seq!['}'] + rest;
    let r9 = lang_doc(m.language) + r10;
    let r8 = key_language() + r9;
    let r7 = quoted(m.body) + r8;
    let r6 = key_body() + r7;
    let r5 = quoted(m.folder) + r6;
    let r4 = key_folder() + r5;
    let r3 = quoted(m.name) + r4;
    let r2 = key_name() + r3;
    let r1 = quoted(m.id) + r2;
    assert(s.skip(i) =~= key_id() + r1);
    lemma_parse_lit_at(s, i, key_id(), r1);
    lemma_parse_quoted_rt(s, i + key_id().len(), m.id, r2);
    let j2 = i + key_id().len() + quoted(m.id).len();
    lemma_parse_lit_at(s, j2, key_name(), r3);
    lemma_parse_quoted_rt(s, j2 + key_name().len(), m.name, r4);
    let j4 = j2 + key_name().len() + quoted(m.name).len();
    lemma_parse_lit_at(s, j4, key_folder(), r5);
    lemma_parse_quoted_rt(s, j4 + key_folder().len(), m.folder, r6);
    let j6 = j4 + key_folder().len() + quoted(m.folder).len();
    lemma_parse_lit_at(s, j6, key_body(), r7);
    lemma_parse_quoted_rt(s, j6 + key_body().len(), m.body, r8);
    let j8 = j6 + key_body().len() + quoted(m.body).len();
    lemma_parse_lit_at(s, j8, key_language(), r9);
    lemma_parse_lang_rt(s, j8 + key_language().len(), m.language, r10);
    let j10 = j8 + key_language().len() + lang_doc(m.language).len();
    lemma_parse_lit_at(s, j10, seq!['}'], rest);
}

/// A written run of records, closed by the list terminator, parses back to
/// the record list itself.
#[verifier::rlimit(100)]
proof fn lemma_parse_items_rt(s: Seq<char>, i: int, l: Seq<SnippetModel>, rest: Seq<char>)
    requires
        l.len() >= 1,
        0 <= i <= s.len(),
        s.skip(i) == items_doc(l) + rest,
        rest.len() >= 1,
        rest[0] == ']',
    ensures
        parse_items(s, i) == Option::Some((l, i + items_doc(l).len())),
        s.skip(i + items_doc(l).len()) == rest,
    decreases l.len(),
{
    assert(s.skip(i).len() == items_doc(l).len() + rest.len());
    if l.len() == 1 {
        lemma_parse_snippet_rt(s, i, l[0], rest);
        let j = i + snippet_doc(l[0]).len();
        assert(snippet_doc(l[0]).len() >= key_id().len());
        assert(s.skip(j)[0] == ']');
        assert(s[j] == ']');
        assert(j < s.len());
        assert(seq![l[0]] =~= l);
    } else {
        let ld = l.drop_first();
        let rest1 = seq![','] + (items_doc(ld) + rest);
        assert(items_doc(l) == snippet_doc(l[0]) + seq![','] + items_doc(ld));
        assert(s.skip(i) == snippet_doc(l[0]) + rest1) by {
            assert(items_doc(l) + rest =~= snippet_doc(l[0]) + (seq![','] + (items_doc(ld)
                + rest)));
        }
        lemma_parse_snippet_rt(s, i, l[0], rest1);
        let j = i + snippet_doc(l[0]).len() as int;
        lemma_skip_split(s, j, seq![','], items_doc(ld) + rest);
        assert(s[j] == ',');
        assert(snippet_doc(l[0]).len() >= key_id().len());
        assert(j < s.len());
        lemma_parse_items_rt(s, j + 1, ld, rest);
        assert(seq![l[0]] + ld =~= l);
    }
}

/// The round trip on a whole collection document: parsing what was written
/// restores exactly the records that were written, in order.
pub proof fn lemma_snippets_round_trip(l: Seq<SnippetModel>)
    ensures
        parse_snippets_doc(snippets_doc(l)) == Option::Some(l),
{
    let s = snippets_doc(l);
    if l.len() == 0 {
        assert(s =~= seq!['[', ']']);
        assert(parse_snippets_doc(s) == Option::Some(Seq::<SnippetModel>::empty()));
        assert(Seq::<SnippetModel>::empty() =~= l);
    } else {
        assert(items_doc(l).len() >= key_id().len()) by {
            if l.len() == 1 {
                assert(items_doc(l) == snippet_doc(l[0]));
            }
        }
        assert(s[0] == '[');
        assert(s.len() == 2 + items_doc(l).len());
        assert(s.skip(1) =~= items_doc(l) + seq![']']);
        lemma_parse_items_rt(s, 1, l, seq![']']);
        let j = 1 + items_doc(l).len() as int;
        assert(s.skip(j)[0] == ']');
        assert(s[j] == ']');
    }
}

/// The round trip on a whole config document: parsing what was written
/// restores exactly the theme that was written.
pub proof fn lemma_config_round_trip(theme: Seq<char>)
    ensures
        parse_config_doc(config_doc(theme)) == Option::Some(theme),
{
    let s = config_doc(theme);
    let r1 = quoted(theme) + seq!['}'];
    assert(s.skip(0) =~= key_theme() + r1);
    lemma_parse_lit_at(s, 0, key_theme(), r1);
    lemma_parse_quoted_rt(s, key_theme().len() as int, theme, seq!['}']);
    let k = key_theme().len() as int + quoted(theme).len();
    assert(s.skip(k)[0] == '}');
    assert(s[k] == '}');
    assert(k + 1 == s.len());
}

/// Writes a whole config document.
pub fn encode_config(theme: &String) -> (doc: Vec<char>)
    ensures
        doc@ == config_doc(theme@),
{
    let mut out: Vec<char> = Vec::new();
    let ktheme: Vec<char> = vec!['{', '"', 't', 'h', 'e', 'm', 'e', '"', ':'];
    proof {
        assert(ktheme@ =~= key_theme());
    }
    push_all(&mut out, &ktheme);
    let theme_chars = crate::text::str_to_chars(theme.as_str());
    push_quoted(&mut out, &theme_chars);
    out.push('}');
    proof {
        assert(out@ =~= config_doc(theme@));
    }
    out
}

} // verus!
