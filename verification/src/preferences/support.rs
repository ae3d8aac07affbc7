//! Assistance with typing: which of its rules are on.

use crate::strings;
use vstd::prelude::*;

verus! {

/// Assistance with typing: repair of slips, English spellings as katakana, and
/// punctuation that depends on what stands before it.
///
/// Every flag is on by default. `enabled` turns all of it off without changing
/// the others.
#[derive(Debug, Clone, Copy, PartialEq, Eq, Structural)]
pub struct InputSupport {
    pub enabled: bool,
    pub commit_based: bool,
    pub advanced: bool,
    pub vowel_count: bool,
    pub consonant_extra: bool,
    pub n_count: bool,
    pub dakuten_swap: bool,
    pub tsu_sokuon: bool,
    pub wa_wo: bool,
    pub small_u: bool,
    pub fuzzy_proper_nouns: bool,
    pub english_to_katakana: bool,
    pub period_after_digit: bool,
    pub comma_after_digit: bool,
    pub middle_dot_after_digit: bool,
    pub long_vowel_after_alnum: bool,
}

impl Default for InputSupport {
    fn default() -> (r: Self)
        ensures
            r == InputSupport::all_on(),
    {
        InputSupport {
            enabled: true,
            commit_based: true,
            advanced: true,
            vowel_count: true,
            consonant_extra: true,
            n_count: true,
            dakuten_swap: true,
            tsu_sokuon: true,
            wa_wo: true,
            small_u: true,
            fuzzy_proper_nouns: true,
            english_to_katakana: true,
            period_after_digit: true,
            comma_after_digit: true,
            middle_dot_after_digit: true,
            long_vowel_after_alnum: true,
        }
    }
}

impl InputSupport {
    /// The default: every rule is on.
    pub open spec fn all_on() -> InputSupport {
        InputSupport {
            enabled: true,
            commit_based: true,
            advanced: true,
            vowel_count: true,
            consonant_extra: true,
            n_count: true,
            dakuten_swap: true,
            tsu_sokuon: true,
            wa_wo: true,
            small_u: true,
            fuzzy_proper_nouns: true,
            english_to_katakana: true,
            period_after_digit: true,
            comma_after_digit: true,
            middle_dot_after_digit: true,
            long_vowel_after_alnum: true,
        }
    }

    /// The flag of the given name.
    pub open spec fn named(self, key: Seq<char>) -> Option<bool> {
        if key == "enabled"@ {
            Some(self.enabled)
        } else if key == "commit-based"@ {
            Some(self.commit_based)
        } else if key == "advanced"@ {
            Some(self.advanced)
        } else if key == "vowel-count"@ {
            Some(self.vowel_count)
        } else if key == "consonant-extra"@ {
            Some(self.consonant_extra)
        } else if key == "n-count"@ {
            Some(self.n_count)
        } else if key == "dakuten-swap"@ {
            Some(self.dakuten_swap)
        } else if key == "tsu-sokuon"@ {
            Some(self.tsu_sokuon)
        } else if key == "wa-wo"@ {
            Some(self.wa_wo)
        } else if key == "small-u"@ {
            Some(self.small_u)
        } else if key == "fuzzy-proper-nouns"@ {
            Some(self.fuzzy_proper_nouns)
        } else if key == "english-to-katakana"@ {
            Some(self.english_to_katakana)
        } else if key == "period-after-digit"@ {
            Some(self.period_after_digit)
        } else if key == "comma-after-digit"@ {
            Some(self.comma_after_digit)
        } else if key == "middle-dot-after-digit"@ {
            Some(self.middle_dot_after_digit)
        } else if key == "long-vowel-after-alnum"@ {
            Some(self.long_vowel_after_alnum)
        } else {
            None
        }
    }

    /// The choices with the flag of the given name set.
    pub open spec fn with_named(self, key: Seq<char>, value: bool) -> InputSupport {
        if key == "enabled"@ {
            InputSupport { enabled: value, ..self }
        } else if key == "commit-based"@ {
            InputSupport { commit_based: value, ..self }
        } else if key == "advanced"@ {
            InputSupport { advanced: value, ..self }
        } else if key == "vowel-count"@ {
            InputSupport { vowel_count: value, ..self }
        } else if key == "consonant-extra"@ {
            InputSupport { consonant_extra: value, ..self }
        } else if key == "n-count"@ {
            InputSupport { n_count: value, ..self }
        } else if key == "dakuten-swap"@ {
            InputSupport { dakuten_swap: value, ..self }
        } else if key == "tsu-sokuon"@ {
            InputSupport { tsu_sokuon: value, ..self }
        } else if key == "wa-wo"@ {
            InputSupport { wa_wo: value, ..self }
        } else if key == "small-u"@ {
            InputSupport { small_u: value, ..self }
        } else if key == "fuzzy-proper-nouns"@ {
            InputSupport { fuzzy_proper_nouns: value, ..self }
        } else if key == "english-to-katakana"@ {
            InputSupport { english_to_katakana: value, ..self }
        } else if key == "period-after-digit"@ {
            InputSupport { period_after_digit: value, ..self }
        } else if key == "comma-after-digit"@ {
            InputSupport { comma_after_digit: value, ..self }
        } else if key == "middle-dot-after-digit"@ {
            InputSupport { middle_dot_after_digit: value, ..self }
        } else if key == "long-vowel-after-alnum"@ {
            InputSupport { long_vowel_after_alnum: value, ..self }
        } else {
            self
        }
    }

    /// Whether any assistance is on.
    pub fn is_active(self) -> (r: bool)
        ensures
            r == self.enabled,
    {
        self.enabled
    }

    /// Whether entries that correct a spelling may be used.
    pub open spec fn corrects_spelling(self, skip_input_repair: bool) -> bool {
        self.enabled && self.fuzzy_proper_nouns && !skip_input_repair
    }

    /// Whether entries that correct a spelling may be used: assistance and fuzzy
    /// proper nouns are on, and repair is not to be skipped.
    pub fn allows_spelling_correction(self, skip_input_repair: bool) -> (r: bool)
        ensures
            r == self.corrects_spelling(skip_input_repair),
    {
        self.is_active() && self.fuzzy_proper_nouns && !skip_input_repair
    }

    /// Sets the flag of the given name. `false` where there is none.
    pub fn set_flag(&mut self, key: &str, value: bool) -> (known: bool)
        ensures
            *final(self) == old(self).with_named(key@, value),
            known == old(self).named(key@) is Some,
    {
        if strings::same_text(key, "enabled") {
            self.enabled = value;
            return true;
        }
        if strings::same_text(key, "commit-based") {
            self.commit_based = value;
            return true;
        }
        if strings::same_text(key, "advanced") {
            self.advanced = value;
            return true;
        }
        if strings::same_text(key, "vowel-count") {
            self.vowel_count = value;
            return true;
        }
        if strings::same_text(key, "consonant-extra") {
            self.consonant_extra = value;
            return true;
        }
        if strings::same_text(key, "n-count") {
            self.n_count = value;
            return true;
        }
        if strings::same_text(key, "dakuten-swap") {
            self.dakuten_swap = value;
            return true;
        }
        if strings::same_text(key, "tsu-sokuon") {
            self.tsu_sokuon = value;
            return true;
        }
        if strings::same_text(key, "wa-wo") {
            self.wa_wo = value;
            return true;
        }
        if strings::same_text(key, "small-u") {
            self.small_u = value;
            return true;
        }
        if strings::same_text(key, "fuzzy-proper-nouns") {
            self.fuzzy_proper_nouns = value;
            return true;
        }
        if strings::same_text(key, "english-to-katakana") {
            self.english_to_katakana = value;
            return true;
        }
        if strings::same_text(key, "period-after-digit") {
            self.period_after_digit = value;
            return true;
        }
        if strings::same_text(key, "comma-after-digit") {
            self.comma_after_digit = value;
            return true;
        }
        if strings::same_text(key, "middle-dot-after-digit") {
            self.middle_dot_after_digit = value;
            return true;
        }
        if strings::same_text(key, "long-vowel-after-alnum") {
            self.long_vowel_after_alnum = value;
            return true;
        }
        false
    }

    /// The flag of the given name.
    pub fn flag(self, key: &str) -> (r: Option<bool>)
        ensures
            r == self.named(key@),
    {
        if strings::same_text(key, "enabled") {
            Some(self.enabled)
        } else if strings::same_text(key, "commit-based") {
            Some(self.commit_based)
        } else if strings::same_text(key, "advanced") {
            Some(self.advanced)
        } else if strings::same_text(key, "vowel-count") {
            Some(self.vowel_count)
        } else if strings::same_text(key, "consonant-extra") {
            Some(self.consonant_extra)
        } else if strings::same_text(key, "n-count") {
            Some(self.n_count)
        } else if strings::same_text(key, "dakuten-swap") {
            Some(self.dakuten_swap)
        } else if strings::same_text(key, "tsu-sokuon") {
            Some(self.tsu_sokuon)
        } else if strings::same_text(key, "wa-wo") {
            Some(self.wa_wo)
        } else if strings::same_text(key, "small-u") {
            Some(self.small_u)
        } else if strings::same_text(key, "fuzzy-proper-nouns") {
            Some(self.fuzzy_proper_nouns)
        } else if strings::same_text(key, "english-to-katakana") {
            Some(self.english_to_katakana)
        } else if strings::same_text(key, "period-after-digit") {
            Some(self.period_after_digit)
        } else if strings::same_text(key, "comma-after-digit") {
            Some(self.comma_after_digit)
        } else if strings::same_text(key, "middle-dot-after-digit") {
            Some(self.middle_dot_after_digit)
        } else if strings::same_text(key, "long-vowel-after-alnum") {
            Some(self.long_vowel_after_alnum)
        } else {
            None
        }
    }
}

} // verus!
