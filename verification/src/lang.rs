//! The two languages of the user interface.
use vstd::prelude::*;

verus! {

/// Language of the user interface.
#[derive(Clone, Copy, PartialEq, Eq, Structural, Debug)]
pub enum Lang {
    En,
    Zh,
}

/// The other language.
pub open spec fn other_lang(l: Lang) -> Lang {
    match l {
        Lang::En => Lang::Zh,
        Lang::Zh => Lang::En,
    }
}

impl Lang {
    /// Switches to the other language.
    pub fn toggle(self) -> (r: Lang)
        ensures
            r == other_lang(self),
    {
        match self {
            Lang::En => Lang::Zh,
            Lang::Zh => Lang::En,
        }
    }

    /// Caption of the language switch button.
    pub fn label(self) -> (r: &'static str)
        ensures
            r@ == (match self {
                Lang::En => "EN/中"@,
                Lang::Zh => "中/EN"@,
            }),
    {
        match self {
            Lang::En => "EN/中",
            Lang::Zh => "中/EN",
        }
    }

    /// Picks the English or the Chinese text, by this language.
    pub fn pick<'a>(self, en: &'a str, zh: &'a str) -> (r: &'a str)
        ensures
            r == (match self {
                Lang::En => en,
                Lang::Zh => zh,
            }),
    {
        match self {
            Lang::En => en,
            Lang::Zh => zh,
        }
    }
}

/// Toggling twice gives back the language one started with, and toggling
/// always changes it.
pub proof fn lemma_toggle_involution(l: Lang)
    ensures
        other_lang(other_lang(l)) == l,
        other_lang(l) != l,
{
}

} // verus!
