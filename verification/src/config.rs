//! The config aggregate: a theme and the storage backend it is persisted
//! through. The backend reference is never part of the persisted document;
//! it is supplied anew at construction.
use vstd::prelude::*;

verus! {

use crate::codec::{config_doc, decode_config, encode_config, parse_config_doc};
use crate::connections::Storage;
use crate::Persist;
use vstd::string::StringExecFns;

/// The mathematical model of a config: its backend descriptor and theme.
#[verifier::ext_equal]
pub struct ConfigModel {
    pub storage: Seq<char>,
    pub theme: Seq<char>,
}

/// The persisted user configuration.
#[derive(Debug)]
pub struct Config {
    storage: Storage,
    theme: String,
}

impl View for Config {
    type V = ConfigModel;

    closed spec fn view(&self) -> ConfigModel {
        ConfigModel { storage: self.storage@, theme: self.theme@ }
    }
}

impl Config {
    /// A fresh config over the given backend, with the stock theme.
    pub fn default(storage: Storage) -> (c: Config)
        ensures
            c@.storage == storage@,
            c@.theme == "Yes"@,
    {
        Config { storage, theme: String::from_str("Yes") }
    }

    /// Hydrates this config in place from the text the backend read,
    /// falling back to the stock theme. Returns whether the fallback was
    /// used.
    pub fn read(&mut self, text: Option<&String>) -> (used_default: bool)
        ensures
            final(self)@.storage == old(self)@.storage,
            (match text {
                Option::Some(t) => match parse_config_doc(t@) {
                    Option::Some(th) => final(self)@.theme == th && !used_default,
                    Option::None => final(self)@.theme == "Yes"@ && used_default,
                },
                Option::None => final(self)@.theme == "Yes"@ && used_default,
            }),
    {
        match text {
            Option::Some(t) => match decode_config(t.as_str()) {
                Option::Some(theme) => {
                    self.theme = theme;
                    false
                },
                Option::None => {
                    self.theme = String::from_str("Yes");
                    true
                },
            },
            Option::None => {
                self.theme = String::from_str("Yes");
                true
            },
        }
    }

    /// The current theme.
    pub fn theme(&self) -> (r: &String)
        ensures
            r@ == self@.theme,
    {
        &self.theme
    }
}

impl Persist for Config {
    open spec fn doc_of(&self) -> Seq<char> {
        config_doc(self@.theme)
    }

    open spec fn decode_doc(prior: Self, doc: Seq<char>) -> Option<ConfigModel> {
        match parse_config_doc(doc) {
            Option::Some(th) => Option::Some(ConfigModel { storage: prior@.storage, theme: th }),
            Option::None => Option::None,
        }
    }

    open spec fn is_fallback(prior: Self, m: ConfigModel) -> bool {
        m.storage == prior@.storage && m.theme == "Yes"@
    }

    fn save(&self) -> (doc: String) {
        let chars = encode_config(&self.theme);
        crate::text::chars_to_string(&chars)
    }

    fn load(self, text: Option<&String>) -> (r: (Self, bool)) {
        match text {
            Option::Some(t) => match decode_config(t.as_str()) {
                Option::Some(theme) => (Config { storage: self.storage, theme }, false),
                Option::None => (Config::default(self.storage), true),
            },
            Option::None => (Config::default(self.storage), true),
        }
    }
}

/// The config round trip: loading the document a config saves restores the
/// config itself — same theme, the backend kept.
pub proof fn lemma_config_save_load_round_trip(c: Config)
    ensures
        Config::decode_doc(c, c.doc_of()) == Option::Some(c@),
{
    crate::codec::lemma_config_round_trip(c@.theme);
    assert(ConfigModel { storage: c@.storage, theme: c@.theme } =~= c@);
}

} // verus!
