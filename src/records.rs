//! Flat translation records as the local store reads and writes them.
use std::collections::HashMap;
use vstd::prelude::*;

verus! {

/// A record as the proofs see it: key, locale, value and context.
pub type TranslationView = (Seq<char>, Seq<char>, Seq<char>, Option<Seq<char>>);

pub open spec fn opt_view(o: Option<String>) -> Option<Seq<char>> {
    match o {
        Some(s) => Some(s@),
        None => None,
    }
}

/// One translation: a key, its locale, its text and an optional context.
#[derive(Debug, Clone, PartialEq)]
pub struct Translation {
    pub key: String,
    pub value: String,
    pub locale: String,
    pub context: Option<String>,
}

impl Translation {
    pub open spec fn view(&self) -> TranslationView {
        (self.key@, self.locale@, self.value@, opt_view(self.context))
    }
}

pub open spec fn translations_view(s: Seq<Translation>) -> Seq<TranslationView> {
    s.map_values(|t: Translation| t@)
}

/// A map from a key to its text, for one locale.
pub type TranslationMap = HashMap<String, String>;

pub fn copy_opt(o: &Option<String>) -> (r: Option<String>)
    ensures
        r == *o,
{
    match o {
        Some(s) => Some(s.clone()),
        None => None,
    }
}

pub fn copy_translation(t: &Translation) -> (r: Translation)
    ensures
        r == *t,
{
    Translation {
        key: t.key.clone(),
        value: t.value.clone(),
        locale: t.locale.clone(),
        context: copy_opt(&t.context),
    }
}

} // verus!
