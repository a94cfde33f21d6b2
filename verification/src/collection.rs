//! The snippet collection: an ordered, owned aggregate of snippets,
//! insertion order significant (newest last), holding the storage backend
//! it is persisted through, with its query operations and its load/save
//! contract.
use vstd::prelude::*;

verus! {

use crate::codec::{
    decode_snippets,
    encode_snippets,
    models_of,
    parse_snippets_doc,
    snippets_doc,
};
use crate::connections::Storage;
use crate::lang::{spec_classify, Language};
use crate::snippet::{Snippet, SnippetModel};
use crate::text::{contains_sub, lemma_contains_self, str_contains_sub};
use crate::Persist;

/// The mathematical model of a collection: its backend descriptor and its
/// snippets, in order.
#[verifier::ext_equal]
pub struct SnippetsModel {
    pub storage: Seq<char>,
    pub snippets: Seq<SnippetModel>,
}

/// The ordered collection of all snippets, the unit that is persisted.
#[derive(Debug)]
pub struct Snippets {
    storage: Storage,
    snippets: Vec<Snippet>,
}

impl View for Snippets {
    type V = SnippetsModel;

    closed spec fn view(&self) -> SnippetsModel {
        SnippetsModel { storage: self.storage@, snippets: models_of(self.snippets@) }
    }
}

/// The snippets whose name contains `q`, in collection order.
pub open spec fn matches_of(snips: Seq<SnippetModel>, q: Seq<char>) -> Seq<SnippetModel> {
    snips.filter(|m: SnippetModel| contains_sub(m.name, q))
}

/// The first snippet whose name contains `q`, if any.
pub open spec fn first_match(snips: Seq<SnippetModel>, q: Seq<char>) -> Option<SnippetModel> {
    if matches_of(snips, q).len() == 0 {
        Option::None
    } else {
        Option::Some(matches_of(snips, q)[0])
    }
}

/// The snippets whose language is exactly `l`, in collection order.
pub open spec fn by_lang_of(snips: Seq<SnippetModel>, l: Language) -> Seq<SnippetModel> {
    snips.filter(|m: SnippetModel| m.language == l)
}

impl Snippets {
    /// A fresh collection over the given backend, holding one template
    /// snippet, as a first run that found no persisted state begins with.
    pub fn default(storage: Storage) -> (s: Snippets)
        ensures
            s@.storage == storage@,
            s@.snippets.len() == 1,
            Snippet::is_default_model(s@.snippets[0]),
    {
        let mut v: Vec<Snippet> = Vec::new();
        v.push(Snippet::default());
        proof {
            assert(models_of(v@) =~= seq![v@[0]@]);
        }
        Snippets { storage, snippets: v }
    }

    /// Appends a snippet at the end. Persisting the grown collection is a
    /// separate `save`, whose failure the caller reports.
    pub fn add(&mut self, snip: Snippet)
        ensures
            final(self)@.storage == old(self)@.storage,
            final(self)@.snippets == old(self)@.snippets.push(snip@),
    {
        let ghost before = self.snippets@;
        self.snippets.push(snip);
        proof {
            assert(models_of(self.snippets@) =~= models_of(before).push(snip@));
        }
    }

    /// Every snippet whose name contains `s` literally, in collection
    /// order; absent when none matches.
    pub fn find(&self, s: &str) -> (r: Option<Vec<Snippet>>)
        ensures
            (match r {
                Option::Some(v) => models_of(v@) == matches_of(self@.snippets, s@) && v@.len() > 0,
                Option::None => matches_of(self@.snippets, s@) == Seq::<SnippetModel>::empty(),
            }),
    {
        let ghost ms = models_of(self.snippets@);
        let ghost pred = |m: SnippetModel| contains_sub(m.name, s@);
        let mut out: Vec<Snippet> = Vec::new();
        let mut i: usize = 0;
        while i < self.snippets.len()
            invariant
                i <= self.snippets@.len(),
                ms == models_of(self.snippets@),
                pred == (|m: SnippetModel| contains_sub(m.name, s@)),
                models_of(out@) == ms.take(i as int).filter(pred),
            decreases self.snippets@.len() - i,
        {
            let ghost out_before = out@;
            let hit = str_contains_sub(self.snippets[i].name.as_str(), s);
            if hit {
                out.push(self.snippets[i].clone());
            }
            proof {
                assert(ms.take(i + 1) =~= ms.take(i as int) + seq![ms[i as int]]);
                Seq::filter_distributes_over_add(ms.take(i as int), seq![ms[i as int]], pred);
                reveal_with_fuel(Seq::filter, 2);
                assert(seq![ms[i as int]].drop_last() =~= Seq::<SnippetModel>::empty());
                assert(ms[i as int] == self.snippets@[i as int]@);
                if hit {
                    assert(pred(ms[i as int]));
                    assert(seq![ms[i as int]].filter(pred) =~= seq![ms[i as int]]);
                    assert(models_of(out@) =~= models_of(out_before).push(ms[i as int]));
                } else {
                    assert(!pred(ms[i as int]));
                    assert(seq![ms[i as int]].filter(pred) =~= Seq::<SnippetModel>::empty());
                }
                assert(models_of(out@) =~= ms.take(i + 1).filter(pred));
            }
            i = i + 1;
        }
        proof {
            assert(ms.take(ms.len() as int) =~= ms);
        }
        if out.len() > 0 {
            Option::Some(out)
        } else {
            proof {
                assert(models_of(out@).len() == 0);
                assert(matches_of(self@.snippets, s@) =~= Seq::<SnippetModel>::empty());
            }
            Option::None
        }
    }

    /// The first snippet whose name contains `s` literally, or absent.
    pub fn get(&self, s: &str) -> (r: Option<Snippet>)
        ensures
            (match r {
                Option::Some(snip) => first_match(self@.snippets, s@) == Option::Some(snip@),
                Option::None => first_match(self@.snippets, s@) is None,
            }),
    {
        match self.find(s) {
            Option::None => Option::None,
            Option::Some(v) => {
                let mut v = v;
                let snip = v.remove(0);
                proof {
                    assert(models_of(v@.insert(0, snip))[0] == snip@);
                }
                Option::Some(snip)
            },
        }
    }

    /// The snippets of the language `tag` classifies to, in collection
    /// order; absent when the tag cannot scope (it classifies to
    /// `Miscellaneous`).
    pub fn list_by_lang(&self, lang: &str) -> (r: Option<Vec<Snippet>>)
        ensures
            (match r {
                Option::Some(v) => spec_classify(lang@) != Language::Miscellaneous && models_of(v@)
                    == by_lang_of(self@.snippets, spec_classify(lang@)),
                Option::None => spec_classify(lang@) == Language::Miscellaneous,
            }),
    {
        let tag = Language::classify(lang);
        if tag == Language::Miscellaneous {
            return Option::None;
        }
        let ghost ms = models_of(self.snippets@);
        let ghost pred = |m: SnippetModel| m.language == spec_classify(lang@);
        let mut out: Vec<Snippet> = Vec::new();
        let mut i: usize = 0;
        while i < self.snippets.len()
            invariant
                i <= self.snippets@.len(),
                ms == models_of(self.snippets@),
                tag == spec_classify(lang@),
                pred == (|m: SnippetModel| m.language == spec_classify(lang@)),
                models_of(out@) == ms.take(i as int).filter(pred),
            decreases self.snippets@.len() - i,
        {
            let ghost out_before = out@;
            let hit = self.snippets[i].language == tag;
            if hit {
                out.push(self.snippets[i].clone());
            }
            proof {
                assert(ms.take(i + 1) =~= ms.take(i as int) + seq![ms[i as int]]);
                Seq::filter_distributes_over_add(ms.take(i as int), seq![ms[i as int]], pred);
                reveal_with_fuel(Seq::filter, 2);
                assert(seq![ms[i as int]].drop_last() =~= Seq::<SnippetModel>::empty());
                assert(ms[i as int] == self.snippets@[i as int]@);
                if hit {
                    assert(pred(ms[i as int]));
                    assert(seq![ms[i as int]].filter(pred) =~= seq![ms[i as int]]);
                    assert(models_of(out@) =~= models_of(out_before).push(ms[i as int]));
                } else {
                    assert(!pred(ms[i as int]));
                    assert(seq![ms[i as int]].filter(pred) =~= Seq::<SnippetModel>::empty());
                }
                assert(models_of(out@) =~= ms.take(i + 1).filter(pred));
            }
            i = i + 1;
        }
        proof {
            assert(ms.take(ms.len() as int) =~= ms);
        }
        Option::Some(out)
    }

    /// The full sequence, unchanged, in insertion order.
    pub fn list_all(&self) -> (r: &Vec<Snippet>)
        ensures
            models_of(r@) == self@.snippets,
    {
        &self.snippets
    }
}

impl Persist for Snippets {
    open spec fn doc_of(&self) -> Seq<char> {
        snippets_doc(self@.snippets)
    }

    open spec fn decode_doc(prior: Self, doc: Seq<char>) -> Option<SnippetsModel> {
        match parse_snippets_doc(doc) {
            Option::Some(l) => Option::Some(
                SnippetsModel { storage: prior@.storage, snippets: l },
            ),
            Option::None => Option::None,
        }
    }

    open spec fn is_fallback(prior: Self, m: SnippetsModel) -> bool {
        m.storage == prior@.storage && m.snippets.len() == 1 && Snippet::is_default_model(
            m.snippets[0],
        )
    }

    fn save(&self) -> (doc: String) {
        let chars = encode_snippets(&self.snippets);
        crate::text::chars_to_string(&chars)
    }

    fn load(self, text: Option<&String>) -> (r: (Self, bool)) {
        match text {
            Option::Some(t) => match decode_snippets(t.as_str()) {
                Option::Some(v) => (Snippets { storage: self.storage, snippets: v }, false),
                Option::None => (Snippets::default(self.storage), true),
            },
            Option::None => (Snippets::default(self.storage), true),
        }
    }
}

/// Filtering keeps nothing when no element satisfies the predicate.
proof fn lemma_filter_none(s: Seq<SnippetModel>, pred: spec_fn(SnippetModel) -> bool)
    requires
        forall|i: int| 0 <= i < s.len() ==> !pred(s[i]),
    ensures
        s.filter(pred) == Seq::<SnippetModel>::empty(),
    decreases s.len(),
{
    reveal(Seq::filter);
    if s.len() > 0 {
        assert(forall|i: int| 0 <= i < s.drop_last().len() ==> s.drop_last()[i] == s[i]);
        lemma_filter_none(s.drop_last(), pred);
        assert(!pred(s.last()));
    }
}

/// After appending a snippet whose name no earlier snippet's name contains
/// as a substring, looking its name up returns exactly that snippet, id
/// included.
pub proof fn lemma_add_then_get(snips: Seq<SnippetModel>, m: SnippetModel)
    requires
        forall|i: int| 0 <= i < snips.len() ==> !contains_sub(snips[i].name, m.name),
    ensures
        first_match(snips.push(m), m.name) == Option::Some(m),
{
    let pred = |x: SnippetModel| contains_sub(x.name, m.name);
    lemma_filter_none(snips, pred);
    lemma_contains_self(m.name);
    reveal(Seq::filter);
    assert(snips.push(m).drop_last() =~= snips);
    assert(snips.push(m).last() == m);
    assert(matches_of(snips.push(m), m.name) =~= seq![m]);
}

/// The collection round trip: loading the document a collection saves
/// restores the collection itself — same snippets, same order, the backend
/// kept.
pub proof fn lemma_save_load_round_trip(s: Snippets)
    ensures
        Snippets::decode_doc(s, s.doc_of()) == Option::Some(s@),
{
    crate::codec::lemma_snippets_round_trip(s@.snippets);
    assert(SnippetsModel { storage: s@.storage, snippets: s@.snippets } =~= s@);
}

} // verus!
