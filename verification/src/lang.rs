//! The language classifier: maps a file-extension token to a fixed
//! language tag, case-insensitively, with `Miscellaneous` as the fallback.
use vstd::prelude::*;

verus! {

use crate::text::str_to_chars;

/// The closed set of language tags a snippet can carry.
#[derive(Clone, Copy, Debug, PartialEq, Eq, Structural)]
pub enum Language {
    Go,
    Rust,
    Python,
    C,
    Bash,
    Cpp,
    Java,
    Miscellaneous,
}

/// `c` is the character `p` up to ASCII case, where `p` is a lowercase
/// ASCII letter of a fixed extension token.
pub open spec fn ic_match(c: char, p: char) -> bool {
    (c as u32) == (p as u32) || (c as u32) + 32 == (p as u32)
}

/// `t` equals the lowercase ASCII pattern `pat` up to ASCII case.
pub open spec fn ieq(t: Seq<char>, pat: Seq<char>) -> bool {
    t.len() == pat.len() && forall|i: int| 0 <= i < t.len() ==> ic_match(t[i], pat[i])
}

/// The classification of an extension token: a case-insensitive exact
/// match against the fixed mapping, any other token (including the empty
/// one) mapping to `Miscellaneous`.
pub open spec fn spec_classify(t: Seq<char>) -> Language {
    if ieq(t, seq!['g', 'o']) {
        Language::Go
    } else if ieq(t, seq!['r', 's']) {
        Language::Rust
    } else if ieq(t, seq!['p', 'y']) {
        Language::Python
    } else if ieq(t, seq!['c']) {
        Language::C
    } else if ieq(t, seq!['s', 'h']) {
        Language::Bash
    } else if ieq(t, seq!['c', 'p', 'p']) {
        Language::Cpp
    } else if ieq(t, seq!['j', 'a', 'v', 'a']) {
        Language::Java
    } else {
        Language::Miscellaneous
    }
}

/// Whether `t` matches the lowercase ASCII pattern `pat` up to case.
fn chars_ieq(t: &Vec<char>, pat: &Vec<char>) -> (r: bool)
    ensures
        r == ieq(t@, pat@),
{
    if t.len() != pat.len() {
        return false;
    }
    let mut i: usize = 0;
    while i < t.len()
        invariant
            t@.len() == pat@.len(),
            i <= t@.len(),
            forall|j: int| 0 <= j < i ==> ic_match(t@[j], pat@[j]),
        decreases t@.len() - i,
    {
        let c: u32 = t[i] as u32;
        let p: u32 = pat[i] as u32;
        if !(c == p || (c <= u32::MAX - 32 && c + 32 == p)) {
            proof {
                assert(!ic_match(t@[i as int], pat@[i as int]));
            }
            return false;
        }
        proof {
            assert(c == t@[i as int] as u32 && p == pat@[i as int] as u32);
            assert(ic_match(t@[i as int], pat@[i as int]));
        }
        i = i + 1;
    }
    true
}

impl Language {
    /// Classifies an extension token, never failing: an unmatched token
    /// yields `Miscellaneous`.
    pub fn classify(token: &str) -> (r: Language)
        ensures
            r == spec_classify(token@),
    {
        let t = str_to_chars(token);
        let go: Vec<char> = vec!['g', 'o'];
        let rs: Vec<char> = vec!['r', 's'];
        let py: Vec<char> = vec!['p', 'y'];
        let c: Vec<char> = vec!['c'];
        let sh: Vec<char> = vec!['s', 'h'];
        let cpp: Vec<char> = vec!['c', 'p', 'p'];
        let java: Vec<char> = vec!['j', 'a', 'v', 'a'];
        if chars_ieq(&t, &go) {
            Language::Go
        } else if chars_ieq(&t, &rs) {
            Language::Rust
        } else if chars_ieq(&t, &py) {
            Language::Python
        } else if chars_ieq(&t, &c) {
            Language::C
        } else if chars_ieq(&t, &sh) {
            Language::Bash
        } else if chars_ieq(&t, &cpp) {
            Language::Cpp
        } else if chars_ieq(&t, &java) {
            Language::Java
        } else {
            Language::Miscellaneous
        }
    }

    /// The tag a token classifies to, in `Result` form for callers that
    /// parse: classification never fails, so this is always `Ok`.
    pub fn from_str(input: &str) -> (r: Result<Language, crate::Error>)
        ensures
            r == Result::<Language, crate::Error>::Ok(spec_classify(input@)),
    {
        Result::Ok(Language::classify(input))
    }

    /// The fixed tag string under which this language is written to disk.
    pub open spec fn spec_tag(self) -> Seq<char> {
        match self {
            Language::Go => seq!['G', 'o'],
            Language::Rust => seq!['R', 'u', 's', 't'],
            Language::Python => seq!['P', 'y', 't', 'h', 'o', 'n'],
            Language::C => seq!['C'],
            Language::Bash => seq!['B', 'a', 's', 'h'],
            Language::Cpp => seq!['C', 'p', 'p'],
            Language::Java => seq!['J', 'a', 'v', 'a'],
            Language::Miscellaneous => seq![
                'M',
                'i',
                's',
                'c',
                'e',
                'l',
                'l',
                'a',
                'n',
                'e',
                'o',
                'u',
                's',
            ],
        }
    }

    /// Writes this language's tag string.
    pub fn tag_chars(self) -> (v: Vec<char>)
        ensures
            v@ == self.spec_tag(),
    {
        let v: Vec<char> = match self {
            Language::Go => vec!['G', 'o'],
            Language::Rust => vec!['R', 'u', 's', 't'],
            Language::Python => vec!['P', 'y', 't', 'h', 'o', 'n'],
            Language::C => vec!['C'],
            Language::Bash => vec!['B', 'a', 's', 'h'],
            Language::Cpp => vec!['C', 'p', 'p'],
            Language::Java => vec!['J', 'a', 'v', 'a'],
            Language::Miscellaneous => vec![
                'M',
                'i',
                's',
                'c',
                'e',
                'l',
                'l',
                'a',
                'n',
                'e',
                'o',
                'u',
                's',
            ],
        };
        v
    }
}

} // verus!
