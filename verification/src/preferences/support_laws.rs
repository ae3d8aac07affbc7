//! What holds of the flags of repair, set and found by their names.

use super::support::InputSupport;
use vstd::prelude::*;

verus! {

/// The place of a flag in the order of the fields, or the number of flags.
spec fn place(key: Seq<char>) -> int {
    if key == "enabled"@ {
        0
    } else if key == "commit-based"@ {
        1
    } else if key == "advanced"@ {
        2
    } else if key == "vowel-count"@ {
        3
    } else if key == "consonant-extra"@ {
        4
    } else if key == "n-count"@ {
        5
    } else if key == "dakuten-swap"@ {
        6
    } else if key == "tsu-sokuon"@ {
        7
    } else if key == "wa-wo"@ {
        8
    } else if key == "small-u"@ {
        9
    } else if key == "fuzzy-proper-nouns"@ {
        10
    } else if key == "english-to-katakana"@ {
        11
    } else if key == "period-after-digit"@ {
        12
    } else if key == "comma-after-digit"@ {
        13
    } else if key == "middle-dot-after-digit"@ {
        14
    } else if key == "long-vowel-after-alnum"@ {
        15
    } else {
        16
    }
}

/// The flag at a place.
#[verifier::opaque]
spec fn at(support: InputSupport, place: int) -> bool {
    if place == 0 {
        support.enabled
    } else if place == 1 {
        support.commit_based
    } else if place == 2 {
        support.advanced
    } else if place == 3 {
        support.vowel_count
    } else if place == 4 {
        support.consonant_extra
    } else if place == 5 {
        support.n_count
    } else if place == 6 {
        support.dakuten_swap
    } else if place == 7 {
        support.tsu_sokuon
    } else if place == 8 {
        support.wa_wo
    } else if place == 9 {
        support.small_u
    } else if place == 10 {
        support.fuzzy_proper_nouns
    } else if place == 11 {
        support.english_to_katakana
    } else if place == 12 {
        support.period_after_digit
    } else if place == 13 {
        support.comma_after_digit
    } else if place == 14 {
        support.middle_dot_after_digit
    } else {
        support.long_vowel_after_alnum
    }
}

/// A flag is found at the place of its name.
proof fn lemma_named_at(support: InputSupport, key: Seq<char>)
    ensures
        support.named(key) == (if place(key) < 16 {
            Some(at(support, place(key)))
        } else {
            None
        }),
{
    reveal(at);
}

proof fn lemma_set_0(support: InputSupport, value: bool, place: int)
    requires
        0 <= place < 16,
    ensures
        at(InputSupport { enabled: value, ..support }, place) == (if place == 0 {
            value
        } else {
            at(support, place)
        }),
{
    reveal(at);
}

proof fn lemma_set_1(support: InputSupport, value: bool, place: int)
    requires
        0 <= place < 16,
    ensures
        at(InputSupport { commit_based: value, ..support }, place) == (if place == 1 {
            value
        } else {
            at(support, place)
        }),
{
    reveal(at);
}

proof fn lemma_set_2(support: InputSupport, value: bool, place: int)
    requires
        0 <= place < 16,
    ensures
        at(InputSupport { advanced: value, ..support }, place) == (if place == 2 {
            value
        } else {
            at(support, place)
        }),
{
    reveal(at);
}

proof fn lemma_set_3(support: InputSupport, value: bool, place: int)
    requires
        0 <= place < 16,
    ensures
        at(InputSupport { vowel_count: value, ..support }, place) == (if place == 3 {
            value
        } else {
            at(support, place)
        }),
{
    reveal(at);
}

proof fn lemma_set_4(support: InputSupport, value: bool, place: int)
    requires
        0 <= place < 16,
    ensures
        at(InputSupport { consonant_extra: value, ..support }, place) == (if place == 4 {
            value
        } else {
            at(support, place)
        }),
{
    reveal(at);
}

proof fn lemma_set_5(support: InputSupport, value: bool, place: int)
    requires
        0 <= place < 16,
    ensures
        at(InputSupport { n_count: value, ..support }, place) == (if place == 5 {
            value
        } else {
            at(support, place)
        }),
{
    reveal(at);
}

proof fn lemma_set_6(support: InputSupport, value: bool, place: int)
    requires
        0 <= place < 16,
    ensures
        at(InputSupport { dakuten_swap: value, ..support }, place) == (if place == 6 {
            value
        } else {
            at(support, place)
        }),
{
    reveal(at);
}

proof fn lemma_set_7(support: InputSupport, value: bool, place: int)
    requires
        0 <= place < 16,
    ensures
        at(InputSupport { tsu_sokuon: value, ..support }, place) == (if place == 7 {
            value
        } else {
            at(support, place)
        }),
{
    reveal(at);
}

proof fn lemma_set_8(support: InputSupport, value: bool, place: int)
    requires
        0 <= place < 16,
    ensures
        at(InputSupport { wa_wo: value, ..support }, place) == (if place == 8 {
            value
        } else {
            at(support, place)
        }),
{
    reveal(at);
}

proof fn lemma_set_9(support: InputSupport, value: bool, place: int)
    requires
        0 <= place < 16,
    ensures
        at(InputSupport { small_u: value, ..support }, place) == (if place == 9 {
            value
        } else {
            at(support, place)
        }),
{
    reveal(at);
}

proof fn lemma_set_10(support: InputSupport, value: bool, place: int)
    requires
        0 <= place < 16,
    ensures
        at(InputSupport { fuzzy_proper_nouns: value, ..support }, place) == (if place == 10 {
            value
        } else {
            at(support, place)
        }),
{
    reveal(at);
}

proof fn lemma_set_11(support: InputSupport, value: bool, place: int)
    requires
        0 <= place < 16,
    ensures
        at(InputSupport { english_to_katakana: value, ..support }, place) == (if place == 11 {
            value
        } else {
            at(support, place)
        }),
{
    reveal(at);
}

proof fn lemma_set_12(support: InputSupport, value: bool, place: int)
    requires
        0 <= place < 16,
    ensures
        at(InputSupport { period_after_digit: value, ..support }, place) == (if place == 12 {
            value
        } else {
            at(support, place)
        }),
{
    reveal(at);
}

proof fn lemma_set_13(support: InputSupport, value: bool, place: int)
    requires
        0 <= place < 16,
    ensures
        at(InputSupport { comma_after_digit: value, ..support }, place) == (if place == 13 {
            value
        } else {
            at(support, place)
        }),
{
    reveal(at);
}

proof fn lemma_set_14(support: InputSupport, value: bool, place: int)
    requires
        0 <= place < 16,
    ensures
        at(InputSupport { middle_dot_after_digit: value, ..support }, place) == (if place == 14 {
            value
        } else {
            at(support, place)
        }),
{
    reveal(at);
}

proof fn lemma_set_15(support: InputSupport, value: bool, place: int)
    requires
        0 <= place < 16,
    ensures
        at(InputSupport { long_vowel_after_alnum: value, ..support }, place) == (if place == 15 {
            value
        } else {
            at(support, place)
        }),
{
    reveal(at);
}

/// The choices with the flag at a place set.
#[verifier::opaque]
spec fn with_at(support: InputSupport, place: int, value: bool) -> InputSupport {
    if place == 0 {
        InputSupport { enabled: value, ..support }
    } else if place == 1 {
        InputSupport { commit_based: value, ..support }
    } else if place == 2 {
        InputSupport { advanced: value, ..support }
    } else if place == 3 {
        InputSupport { vowel_count: value, ..support }
    } else if place == 4 {
        InputSupport { consonant_extra: value, ..support }
    } else if place == 5 {
        InputSupport { n_count: value, ..support }
    } else if place == 6 {
        InputSupport { dakuten_swap: value, ..support }
    } else if place == 7 {
        InputSupport { tsu_sokuon: value, ..support }
    } else if place == 8 {
        InputSupport { wa_wo: value, ..support }
    } else if place == 9 {
        InputSupport { small_u: value, ..support }
    } else if place == 10 {
        InputSupport { fuzzy_proper_nouns: value, ..support }
    } else if place == 11 {
        InputSupport { english_to_katakana: value, ..support }
    } else if place == 12 {
        InputSupport { period_after_digit: value, ..support }
    } else if place == 13 {
        InputSupport { comma_after_digit: value, ..support }
    } else if place == 14 {
        InputSupport { middle_dot_after_digit: value, ..support }
    } else {
        InputSupport { long_vowel_after_alnum: value, ..support }
    }
}

proof fn lemma_with_0(support: InputSupport, value: bool)
    ensures
        with_at(support, 0, value) == (InputSupport { enabled: value, ..support }),
{
    reveal(with_at);
}

proof fn lemma_with_named_0(support: InputSupport, key: Seq<char>, value: bool)
    requires
        place(key) == 0,
    ensures
        support.with_named(key, value) == with_at(support, 0, value),
{
    lemma_with_0(support, value);
}

proof fn lemma_with_1(support: InputSupport, value: bool)
    ensures
        with_at(support, 1, value) == (InputSupport { commit_based: value, ..support }),
{
    reveal(with_at);
}

proof fn lemma_with_named_1(support: InputSupport, key: Seq<char>, value: bool)
    requires
        place(key) == 1,
    ensures
        support.with_named(key, value) == with_at(support, 1, value),
{
    lemma_with_1(support, value);
}

proof fn lemma_with_2(support: InputSupport, value: bool)
    ensures
        with_at(support, 2, value) == (InputSupport { advanced: value, ..support }),
{
    reveal(with_at);
}

proof fn lemma_with_named_2(support: InputSupport, key: Seq<char>, value: bool)
    requires
        place(key) == 2,
    ensures
        support.with_named(key, value) == with_at(support, 2, value),
{
    lemma_with_2(support, value);
}

proof fn lemma_with_3(support: InputSupport, value: bool)
    ensures
        with_at(support, 3, value) == (InputSupport { vowel_count: value, ..support }),
{
    reveal(with_at);
}

proof fn lemma_with_named_3(support: InputSupport, key: Seq<char>, value: bool)
    requires
        place(key) == 3,
    ensures
        support.with_named(key, value) == with_at(support, 3, value),
{
    lemma_with_3(support, value);
}

proof fn lemma_with_4(support: InputSupport, value: bool)
    ensures
        with_at(support, 4, value) == (InputSupport { consonant_extra: value, ..support }),
{
    reveal(with_at);
}

proof fn lemma_with_named_4(support: InputSupport, key: Seq<char>, value: bool)
    requires
        place(key) == 4,
    ensures
        support.with_named(key, value) == with_at(support, 4, value),
{
    lemma_with_4(support, value);
}

proof fn lemma_with_5(support: InputSupport, value: bool)
    ensures
        with_at(support, 5, value) == (InputSupport { n_count: value, ..support }),
{
    reveal(with_at);
}

proof fn lemma_with_named_5(support: InputSupport, key: Seq<char>, value: bool)
    requires
        place(key) == 5,
    ensures
        support.with_named(key, value) == with_at(support, 5, value),
{
    lemma_with_5(support, value);
}

proof fn lemma_with_6(support: InputSupport, value: bool)
    ensures
        with_at(support, 6, value) == (InputSupport { dakuten_swap: value, ..support }),
{
    reveal(with_at);
}

proof fn lemma_with_named_6(support: InputSupport, key: Seq<char>, value: bool)
    requires
        place(key) == 6,
    ensures
        support.with_named(key, value) == with_at(support, 6, value),
{
    lemma_with_6(support, value);
}

proof fn lemma_with_7(support: InputSupport, value: bool)
    ensures
        with_at(support, 7, value) == (InputSupport { tsu_sokuon: value, ..support }),
{
    reveal(with_at);
}

proof fn lemma_with_named_7(support: InputSupport, key: Seq<char>, value: bool)
    requires
        place(key) == 7,
    ensures
        support.with_named(key, value) == with_at(support, 7, value),
{
    lemma_with_7(support, value);
}

proof fn lemma_with_8(support: InputSupport, value: bool)
    ensures
        with_at(support, 8, value) == (InputSupport { wa_wo: value, ..support }),
{
    reveal(with_at);
}

proof fn lemma_with_named_8(support: InputSupport, key: Seq<char>, value: bool)
    requires
        place(key) == 8,
    ensures
        support.with_named(key, value) == with_at(support, 8, value),
{
    lemma_with_8(support, value);
}

proof fn lemma_with_9(support: InputSupport, value: bool)
    ensures
        with_at(support, 9, value) == (InputSupport { small_u: value, ..support }),
{
    reveal(with_at);
}

proof fn lemma_with_named_9(support: InputSupport, key: Seq<char>, value: bool)
    requires
        place(key) == 9,
    ensures
        support.with_named(key, value) == with_at(support, 9, value),
{
    lemma_with_9(support, value);
}

proof fn lemma_with_10(support: InputSupport, value: bool)
    ensures
        with_at(support, 10, value) == (InputSupport { fuzzy_proper_nouns: value, ..support }),
{
    reveal(with_at);
}

proof fn lemma_with_named_10(support: InputSupport, key: Seq<char>, value: bool)
    requires
        place(key) == 10,
    ensures
        support.with_named(key, value) == with_at(support, 10, value),
{
    lemma_with_10(support, value);
}

proof fn lemma_with_11(support: InputSupport, value: bool)
    ensures
        with_at(support, 11, value) == (InputSupport { english_to_katakana: value, ..support }),
{
    reveal(with_at);
}

proof fn lemma_with_named_11(support: InputSupport, key: Seq<char>, value: bool)
    requires
        place(key) == 11,
    ensures
        support.with_named(key, value) == with_at(support, 11, value),
{
    lemma_with_11(support, value);
}

proof fn lemma_with_12(support: InputSupport, value: bool)
    ensures
        with_at(support, 12, value) == (InputSupport { period_after_digit: value, ..support }),
{
    reveal(with_at);
}

proof fn lemma_with_named_12(support: InputSupport, key: Seq<char>, value: bool)
    requires
        place(key) == 12,
    ensures
        support.with_named(key, value) == with_at(support, 12, value),
{
    lemma_with_12(support, value);
}

proof fn lemma_with_13(support: InputSupport, value: bool)
    ensures
        with_at(support, 13, value) == (InputSupport { comma_after_digit: value, ..support }),
{
    reveal(with_at);
}

proof fn lemma_with_named_13(support: InputSupport, key: Seq<char>, value: bool)
    requires
        place(key) == 13,
    ensures
        support.with_named(key, value) == with_at(support, 13, value),
{
    lemma_with_13(support, value);
}

proof fn lemma_with_14(support: InputSupport, value: bool)
    ensures
        with_at(support, 14, value) == (InputSupport { middle_dot_after_digit: value, ..support }),
{
    reveal(with_at);
}

proof fn lemma_with_named_14(support: InputSupport, key: Seq<char>, value: bool)
    requires
        place(key) == 14,
    ensures
        support.with_named(key, value) == with_at(support, 14, value),
{
    lemma_with_14(support, value);
}

proof fn lemma_with_15(support: InputSupport, value: bool)
    ensures
        with_at(support, 15, value) == (InputSupport { long_vowel_after_alnum: value, ..support }),
{
    reveal(with_at);
}

proof fn lemma_with_named_15(support: InputSupport, key: Seq<char>, value: bool)
    requires
        place(key) == 15,
    ensures
        support.with_named(key, value) == with_at(support, 15, value),
{
    lemma_with_15(support, value);
}

/// Setting the flag at a place sets it, and no other.
proof fn lemma_set_at(support: InputSupport, place: int, value: bool, other: int)
    requires
        0 <= place < 16,
        0 <= other < 16,
    ensures
        at(with_at(support, place, value), other) == (if other == place {
            value
        } else {
            at(support, other)
        }),
{
    if place == 0 {
        lemma_with_0(support, value);
        lemma_set_0(support, value, other);
    } else if place == 1 {
        lemma_with_1(support, value);
        lemma_set_1(support, value, other);
    } else if place == 2 {
        lemma_with_2(support, value);
        lemma_set_2(support, value, other);
    } else if place == 3 {
        lemma_with_3(support, value);
        lemma_set_3(support, value, other);
    } else if place == 4 {
        lemma_with_4(support, value);
        lemma_set_4(support, value, other);
    } else if place == 5 {
        lemma_with_5(support, value);
        lemma_set_5(support, value, other);
    } else if place == 6 {
        lemma_with_6(support, value);
        lemma_set_6(support, value, other);
    } else if place == 7 {
        lemma_with_7(support, value);
        lemma_set_7(support, value, other);
    } else if place == 8 {
        lemma_with_8(support, value);
        lemma_set_8(support, value, other);
    } else if place == 9 {
        lemma_with_9(support, value);
        lemma_set_9(support, value, other);
    } else if place == 10 {
        lemma_with_10(support, value);
        lemma_set_10(support, value, other);
    } else if place == 11 {
        lemma_with_11(support, value);
        lemma_set_11(support, value, other);
    } else if place == 12 {
        lemma_with_12(support, value);
        lemma_set_12(support, value, other);
    } else if place == 13 {
        lemma_with_13(support, value);
        lemma_set_13(support, value, other);
    } else if place == 14 {
        lemma_with_14(support, value);
        lemma_set_14(support, value, other);
    } else if place == 15 {
        lemma_with_15(support, value);
        lemma_set_15(support, value, other);
    }
}

/// Setting a flag by its name sets the flag at the place of the name.
proof fn lemma_with_named_at(support: InputSupport, key: Seq<char>, value: bool)
    requires
        place(key) < 16,
    ensures
        support.with_named(key, value) == with_at(support, place(key), value),
{
    let p = place(key);
    if p == 0 {
        lemma_with_named_0(support, key, value);
    } else if p == 1 {
        lemma_with_named_1(support, key, value);
    } else if p == 2 {
        lemma_with_named_2(support, key, value);
    } else if p == 3 {
        lemma_with_named_3(support, key, value);
    } else if p == 4 {
        lemma_with_named_4(support, key, value);
    } else if p == 5 {
        lemma_with_named_5(support, key, value);
    } else if p == 6 {
        lemma_with_named_6(support, key, value);
    } else if p == 7 {
        lemma_with_named_7(support, key, value);
    } else if p == 8 {
        lemma_with_named_8(support, key, value);
    } else if p == 9 {
        lemma_with_named_9(support, key, value);
    } else if p == 10 {
        lemma_with_named_10(support, key, value);
    } else if p == 11 {
        lemma_with_named_11(support, key, value);
    } else if p == 12 {
        lemma_with_named_12(support, key, value);
    } else if p == 13 {
        lemma_with_named_13(support, key, value);
    } else if p == 14 {
        lemma_with_named_14(support, key, value);
    } else if p == 15 {
        lemma_with_named_15(support, key, value);
    }
}

/// A flag that is set is found as it was set, and a name of no flag changes nothing.
pub proof fn set_flags_read_back(support: InputSupport, key: Seq<char>, value: bool)
    ensures
        support.named(key) is Some ==> support.with_named(key, value).named(key) == Some(value),
        support.named(key) is None ==> support.with_named(key, value) == support,
{
    lemma_named_at(support, key);
    lemma_named_at(support.with_named(key, value), key);
    if place(key) < 16 {
        lemma_with_named_at(support, key, value);
        lemma_set_at(support, place(key), value, place(key));
    }
}

/// Names of different flags have different places.
proof fn lemma_places_differ(key: Seq<char>, other: Seq<char>)
    requires
        key != other,
        place(key) < 16,
    ensures
        place(key) != place(other),
{
}

/// Setting a flag leaves the others as they were.
pub proof fn set_flags_leave_the_rest(
    support: InputSupport,
    key: Seq<char>,
    value: bool,
    other: Seq<char>,
)
    requires
        key != other,
    ensures
        support.with_named(key, value).named(other) == support.named(other),
{
    lemma_named_at(support, key);
    lemma_named_at(support, other);
    lemma_named_at(support.with_named(key, value), other);
    if place(key) < 16 && place(other) < 16 {
        lemma_places_differ(key, other);
        lemma_with_named_at(support, key, value);
        lemma_set_at(support, place(key), value, place(other));
    }
}

} // verus!
