//! User preferences: shortcuts, modifier key, speed, language and the build options.

use vstd::prelude::*;
use crate::text;

verus! {

/// File of the settings, with the name of the first version (the migration depends on it).
pub const SETTINGS_FILE: &'static str = "settings.json";

/// Macro speed profile.
#[derive(Debug, Clone, Copy, PartialEq, Eq, Structural)]
pub enum Speed {
    Normal,
    Fast,
    Turbo,
}

impl Speed {
    pub fn all() -> (r: [Speed; 3])
        ensures
            r@ == seq![Speed::Normal, Speed::Fast, Speed::Turbo],
    {
        let r = [Speed::Normal, Speed::Fast, Speed::Turbo];
        assert(r@ =~= seq![Speed::Normal, Speed::Fast, Speed::Turbo]);
        r
    }

    pub open spec fn spec_as_str(self) -> Seq<char> {
        match self {
            Speed::Normal => seq!['n', 'o', 'r', 'm', 'a', 'l'],
            Speed::Fast => seq!['f', 'a', 's', 't'],
            Speed::Turbo => seq!['t', 'u', 'r', 'b', 'o'],
        }
    }

    /// The name the settings file stores.
    pub fn as_str(self) -> (r: &'static str)
        ensures
            r@ == self.spec_as_str(),
    {
        proof {
            reveal_strlit("normal");
            reveal_strlit("fast");
            reveal_strlit("turbo");
            assert("normal"@ =~= seq!['n', 'o', 'r', 'm', 'a', 'l']);
            assert("fast"@ =~= seq!['f', 'a', 's', 't']);
            assert("turbo"@ =~= seq!['t', 'u', 'r', 'b', 'o']);
        }
        match self {
            Speed::Normal => "normal",
            Speed::Fast => "fast",
            Speed::Turbo => "turbo",
        }
    }

    pub open spec fn spec_from_str(value: Seq<char>) -> Speed {
        if value == seq!['f', 'a', 's', 't'] {
            Speed::Fast
        } else if value == seq!['t', 'u', 'r', 'b', 'o'] {
            Speed::Turbo
        } else {
            Speed::Normal
        }
    }

    /// An unknown value falls back to the default instead of failing the whole file.
    pub fn from_str_or_default(value: &str) -> (r: Speed)
        ensures
            r == Speed::spec_from_str(value@),
    {
        let fast = Speed::Fast.as_str();
        let turbo = Speed::Turbo.as_str();
        if text::str_eq(value, fast) {
            Speed::Fast
        } else if text::str_eq(value, turbo) {
            Speed::Turbo
        } else {
            Speed::Normal
        }
    }
}

/// Every speed survives the round trip through its stored name.
pub proof fn law_speed_round_trip(s: Speed)
    ensures
        Speed::spec_from_str(s.spec_as_str()) == s,
{
    assert(seq!['n', 'o', 'r', 'm', 'a', 'l'] != seq!['f', 'a', 's', 't']);
    assert(seq!['n', 'o', 'r', 'm', 'a', 'l'][0] != seq!['t', 'u', 'r', 'b', 'o'][0]);
    assert(seq!['f', 'a', 's', 't'].len() != seq!['t', 'u', 'r', 'b', 'o'].len());
}

/// UI language.
#[derive(Debug, Clone, Copy, PartialEq, Eq, Structural)]
pub enum Language {
    Pt,
    En,
}

impl Language {
    pub fn all() -> (r: [Language; 2])
        ensures
            r@ == seq![Language::Pt, Language::En],
    {
        let r = [Language::Pt, Language::En];
        assert(r@ =~= seq![Language::Pt, Language::En]);
        r
    }

    pub open spec fn spec_as_str(self) -> Seq<char> {
        match self {
            Language::Pt => seq!['p', 't'],
            Language::En => seq!['e', 'n'],
        }
    }

    pub fn as_str(self) -> (r: &'static str)
        ensures
            r@ == self.spec_as_str(),
    {
        proof {
            reveal_strlit("pt");
            reveal_strlit("en");
            assert("pt"@ =~= seq!['p', 't']);
            assert("en"@ =~= seq!['e', 'n']);
        }
        match self {
            Language::Pt => "pt",
            Language::En => "en",
        }
    }

    pub open spec fn spec_from_str(value: Seq<char>) -> Language {
        if value == seq!['e', 'n'] {
            Language::En
        } else {
            Language::Pt
        }
    }

    pub fn from_str_or_default(value: &str) -> (r: Language)
        ensures
            r == Language::spec_from_str(value@),
    {
        if text::str_eq(value, Language::En.as_str()) {
            Language::En
        } else {
            Language::Pt
        }
    }
}

/// Every language survives the round trip through its stored name.
pub proof fn law_language_round_trip(l: Language)
    ensures
        Language::spec_from_str(l.spec_as_str()) == l,
{
    assert(seq!['p', 't'][0] != seq!['e', 'n'][0]);
}

/// Macro slots.
pub const SLOT_COUNT: usize = 4;
/// Fixed support stratagems (Reinforce, Resupply, Eagle Rearm).
pub const SUPPORT_COUNT: usize = 3;

/// Everything the user chooses, as the settings file stores it.
#[derive(Debug, Clone, PartialEq, Eq)]
pub struct Settings {
    pub shortcuts: [Option<String>; SLOT_COUNT],
    pub support_shortcuts: [Option<String>; SUPPORT_COUNT],
    pub modifier_key: String,
    pub use_arrows: bool,
    pub macro_speed: Speed,
    pub language: Language,
    pub enable_overlay: bool,
    pub always_show_slots: bool,
    pub build_match_set: bool,
    pub build_balanced: bool,
    pub build_max_one_sentry: bool,
}

/// An optional string as an optional character sequence.
pub open spec fn opt_view(s: Option<String>) -> Option<Seq<char>> {
    match s {
        Some(s) => Some(s@),
        None => None,
    }
}

impl Settings {
    /// The defaults of a fresh install: F1..F4, no support shortcuts, Ctrl.
    pub open spec fn is_default(&self) -> bool {
        &&& opt_view(self.shortcuts[0]) == Some(seq!['F', '1'])
        &&& opt_view(self.shortcuts[1]) == Some(seq!['F', '2'])
        &&& opt_view(self.shortcuts[2]) == Some(seq!['F', '3'])
        &&& opt_view(self.shortcuts[3]) == Some(seq!['F', '4'])
        &&& self.support_shortcuts[0] is None
        &&& self.support_shortcuts[1] is None
        &&& self.support_shortcuts[2] is None
        &&& self.modifier_key@ == seq!['L', 'e', 'f', 't', 'C', 'o', 'n', 't', 'r', 'o', 'l']
        &&& !self.use_arrows
        &&& self.macro_speed == Speed::Normal
        &&& self.language == Language::Pt
        &&& self.enable_overlay
        &&& !self.always_show_slots
        &&& self.build_match_set
        &&& !self.build_balanced
        &&& !self.build_max_one_sentry
    }

    pub fn default() -> (s: Settings)
        ensures
            s.is_default(),
    {
        proof {
            reveal_strlit("F1");
            reveal_strlit("F2");
            reveal_strlit("F3");
            reveal_strlit("F4");
            reveal_strlit("LeftControl");
        }
        let s = Settings {
            shortcuts: [
                Some(text::owned("F1")),
                Some(text::owned("F2")),
                Some(text::owned("F3")),
                Some(text::owned("F4")),
            ],
            support_shortcuts: [None, None, None],
            modifier_key: text::owned("LeftControl"),
            use_arrows: false,
            macro_speed: Speed::Normal,
            language: Language::Pt,
            enable_overlay: true,
            always_show_slots: false,
            build_match_set: true,
            build_balanced: false,
            build_max_one_sentry: false,
        };
        assert(s.shortcuts[0]->0@ =~= seq!['F', '1']);
        assert(s.shortcuts[1]->0@ =~= seq!['F', '2']);
        assert(s.shortcuts[2]->0@ =~= seq!['F', '3']);
        assert(s.shortcuts[3]->0@ =~= seq!['F', '4']);
        assert(s.modifier_key@ =~= seq!['L', 'e', 'f', 't', 'C', 'o', 'n', 't', 'r', 'o', 'l']);
        s
    }

    pub open spec fn spec_shortcut(&self, index: int) -> Option<Seq<char>> {
        if 0 <= index < SLOT_COUNT {
            opt_view(self.shortcuts[index])
        } else {
            None
        }
    }

    pub open spec fn spec_support_shortcut(&self, index: int) -> Option<Seq<char>> {
        if 0 <= index < SUPPORT_COUNT {
            opt_view(self.support_shortcuts[index])
        } else {
            None
        }
    }

    /// Shortcut name of a macro slot; out-of-range slots have none.
    pub fn shortcut(&self, index: usize) -> (r: Option<&str>)
        ensures
            r is None <==> self.spec_shortcut(index as int) is None,
            r matches Some(n) ==> self.spec_shortcut(index as int) == Some(n@),
    {
        if index < SLOT_COUNT {
            match &self.shortcuts[index] {
                Some(s) => Some(s.as_str()),
                None => None,
            }
        } else {
            None
        }
    }

    /// Shortcut name of a fixed support stratagem.
    pub fn support_shortcut(&self, index: usize) -> (r: Option<&str>)
        ensures
            r is None <==> self.spec_support_shortcut(index as int) is None,
            r matches Some(n) ==> self.spec_support_shortcut(index as int) == Some(n@),
    {
        if index < SUPPORT_COUNT {
            match &self.support_shortcuts[index] {
                Some(s) => Some(s.as_str()),
                None => None,
            }
        } else {
            None
        }
    }
}

/// A shortcut list of any length, cut or padded with `None` to `n` entries
/// (what reading the settings file does with a short or long list).
pub fn fixed_shortcuts(values: Vec<Option<String>>, n: usize) -> (r: Vec<Option<String>>)
    ensures
        r@.len() == n,
        forall|i: int| 0 <= i < n ==> #[trigger] r@[i] == (if i < values@.len() { values@[i] } else { None }),
{
    let mut values = values;
    let ghost orig = values@;
    values.truncate(n);
    while values.len() < n
        invariant
            values@.len() <= n,
            values@.len() == n || values@.len() >= orig.len(),
            forall|i: int| 0 <= i < values@.len() ==> #[trigger] values@[i] == (if i < orig.len() { orig[i] } else { None }),
        decreases n - values.len(),
    {
        values.push(None);
    }
    values
}

} // verus!
