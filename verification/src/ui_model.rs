//! Pure view-model helpers for a renderer: the difficulty choice a player
//! made (its settings, its best-time key and the value stored for it), the
//! decoding of a saved choice string, and the style class of a numbered
//! cell. All of it is plain string and number logic; no presentation here.

use vstd::prelude::*;
use vstd::string::StrSliceExecFns;
use vstd::string::StringExecFns;
use crate::difficulty::{validate_custom, DifficultyPreset, DifficultySettings};
use crate::persistence::{all_dec_digits, dec_value, is_dec_digit, parse_u64};

verus! {

/// A difficulty the player chose: the board settings, the key under which
/// its best time is stored, and the value that records the choice itself.
#[derive(Clone, Debug)]
pub struct DifficultyChoice {
    pub settings: DifficultySettings,
    pub best_key: String,
    pub storage_value: String,
}

/// Character-wise string equality.
fn str_eq(a: &str, b: &str) -> (r: bool)
    ensures
        r == (a@ == b@),
{
    let n = a.unicode_len();
    if n != b.unicode_len() {
        proof {
            assert(a@ != b@);
        }
        return false;
    }
    let mut i: usize = 0;
    while i < n
        invariant
            i <= n,
            n == a@.len(),
            n == b@.len(),
            forall|j: int| 0 <= j < i ==> a@[j] == b@[j],
        decreases n - i,
    {
        if a.get_char(i) != b.get_char(i) {
            proof {
                assert(a@[i as int] != b@[i as int]);
            }
            return false;
        }
        i = i + 1;
    }
    proof {
        assert(a@ =~= b@);
    }
    true
}

/// The choice a preset stands for: the preset's settings, with the tier's
/// lower-case name as both best-time key and stored value.
pub fn preset_choice(preset: DifficultyPreset) -> (c: DifficultyChoice)
    ensures
        c.settings.valid(),
        preset == DifficultyPreset::Beginner ==> c.best_key@ == "beginner"@ && c.storage_value@
            == "beginner"@ && c.settings.width == 9 && c.settings.height == 9 && c.settings.mines
            == 10,
        preset == DifficultyPreset::Intermediate ==> c.best_key@ == "intermediate"@
            && c.storage_value@ == "intermediate"@ && c.settings.width == 16 && c.settings.height
            == 16 && c.settings.mines == 40,
        preset == DifficultyPreset::Expert ==> c.best_key@ == "expert"@ && c.storage_value@
            == "expert"@ && c.settings.width == 30 && c.settings.height == 16 && c.settings.mines
            == 99,
{
    match preset {
        DifficultyPreset::Beginner => DifficultyChoice {
            settings: preset.settings(),
            best_key: "beginner".to_owned(),
            storage_value: "beginner".to_owned(),
        },
        DifficultyPreset::Intermediate => DifficultyChoice {
            settings: preset.settings(),
            best_key: "intermediate".to_owned(),
            storage_value: "intermediate".to_owned(),
        },
        DifficultyPreset::Expert => DifficultyChoice {
            settings: preset.settings(),
            best_key: "expert".to_owned(),
            storage_value: "expert".to_owned(),
        },
    }
}

/// Whether `s` reads `"custom:"`, then the decimal digits of `wv`, `hv` and
/// `mv` separated by single colons, with values a custom board accepts.
pub open spec fn custom_saved_choice(s: Seq<char>, wv: int, hv: int, mv: int) -> bool {
    exists|a: int, b: int| custom_saved_choice_at(s, a, b, wv, hv, mv)
}

/// As `custom_saved_choice`, with the positions `a` and `b` of the two
/// separating colons given.
pub open spec fn custom_saved_choice_at(
    s: Seq<char>,
    a: int,
    b: int,
    wv: int,
    hv: int,
    mv: int,
) -> bool {
    &&& s.take(7) == "custom:"@
    &&& 7 < a
    &&& a + 1 < b
    &&& b + 1 < s.len()
    &&& s[a] == ':'
    &&& s[b] == ':'
    &&& all_dec_digits(s.subrange(7, a))
    &&& all_dec_digits(s.subrange(a + 1, b))
    &&& all_dec_digits(s.subrange(b + 1, s.len() as int))
    &&& wv == dec_value(s.subrange(7, a))
    &&& hv == dec_value(s.subrange(a + 1, b))
    &&& mv == dec_value(s.subrange(b + 1, s.len() as int))
    &&& 5 <= wv <= 50
    &&& 5 <= hv <= 50
    &&& 0 < mv < wv * hv
}


/// Within a well-formed custom choice string, the only colons past the
/// prefix are the two separators.
proof fn lemma_custom_colons(
    s: Seq<char>,
    a: int,
    b: int,
    wv: int,
    hv: int,
    mv: int,
    j: int,
)
    requires
        custom_saved_choice_at(s, a, b, wv, hv, mv),
        7 <= j < s.len(),
        s[j] == ':',
    ensures
        j == a || j == b,
{
    if j != a && j != b {
        if j < a {
            assert(is_dec_digit(s.subrange(7, a)[j - 7]));
        } else if j < b {
            assert(is_dec_digit(s.subrange(a + 1, b)[j - (a + 1)]));
        } else {
            assert(is_dec_digit(s.subrange(b + 1, s.len() as int)[j - (b + 1)]));
        }
    }
}

/// A well-formed custom choice string pins its separators to the two colons
/// a left-to-right scan finds.
proof fn lemma_pin_colons(
    s: Seq<char>,
    a: int,
    b: int,
    wv: int,
    hv: int,
    mv: int,
    first: int,
    second: int,
)
    requires
        custom_saved_choice_at(s, a, b, wv, hv, mv),
        7 <= first < second < s.len(),
        s[first] == ':',
        s[second] == ':',
        forall|j: int| 7 <= j < s.len() && #[trigger] s[j] == ':' ==> j == first || j == second,
    ensures
        a == first,
        b == second,
{
    lemma_custom_colons(s, a, b, wv, hv, mv, first);
    lemma_custom_colons(s, a, b, wv, hv, mv, second);
}

/// Decodes a saved difficulty choice: one of the three preset names yields
/// that preset's choice; a well-formed `"custom:width:height:mines"` value
/// whose numbers pass `validate_custom` yields the custom choice carrying
/// exactly those numbers and the original string; everything else yields
/// nothing. The exact text of a custom choice's best-time key is not part of
/// the contract.
pub fn parse_saved_choice(raw: Option<&str>) -> (r: Option<DifficultyChoice>)
    ensures
        raw is None ==> r is None,
        r is Some ==> raw is Some && r->0.settings.valid() && r->0.storage_value@ == raw->0@,
        raw is Some && raw->0@ == "beginner"@ ==> r is Some && r->0.settings.width == 9
            && r->0.settings.height == 9 && r->0.settings.mines == 10 && r->0.best_key@
            == "beginner"@,
        raw is Some && raw->0@ == "intermediate"@ ==> r is Some && r->0.settings.width == 16
            && r->0.settings.height == 16 && r->0.settings.mines == 40 && r->0.best_key@
            == "intermediate"@,
        raw is Some && raw->0@ == "expert"@ ==> r is Some && r->0.settings.width == 30
            && r->0.settings.height == 16 && r->0.settings.mines == 99 && r->0.best_key@
            == "expert"@,
        raw is Some && (exists|wv: int, hv: int, mv: int|
            custom_saved_choice(raw->0@, wv, hv, mv)) ==> r is Some,
        r is Some && !(raw->0@ == "beginner"@ || raw->0@ == "intermediate"@ || raw->0@
            == "expert"@) ==> custom_saved_choice(
            raw->0@,
            r->0.settings.width as int,
            r->0.settings.height as int,
            r->0.settings.mines as int,
        ) && r->0.settings.label@ == "Custom"@,
{
    let value = match raw {
        Some(v) => v,
        None => { return None; },
    };
    proof {
        reveal_strlit("beginner");
        reveal_strlit("intermediate");
        reveal_strlit("expert");
        assert("beginner"@.len() == 8);
        assert("intermediate"@.len() == 12);
        assert("expert"@.len() == 6);
    }
    if str_eq(value, "beginner") {
        return Some(preset_choice(DifficultyPreset::Beginner));
    }
    if str_eq(value, "intermediate") {
        return Some(preset_choice(DifficultyPreset::Intermediate));
    }
    if str_eq(value, "expert") {
        return Some(preset_choice(DifficultyPreset::Expert));
    }
    let len = value.unicode_len();
    if len < 8 {
        proof {
        if exists|wv2: int, hv2: int, mv2: int| custom_saved_choice(value@, wv2, hv2, mv2) {
            let (wv2, hv2, mv2): (int, int, int) = choose|wv2: int, hv2: int, mv2: int|
                custom_saved_choice(value@, wv2, hv2, mv2);
            let (a, b): (int, int) = choose|a: int, b: int|
                custom_saved_choice_at(value@, a, b, wv2, hv2, mv2);
            assert(false);
        }
        }
        return None;
    }
    // the "custom:" prefix, character by character
    proof {
        reveal_strlit("custom:");
    }
    if value.get_char(0) != 'c' || value.get_char(1) != 'u' || value.get_char(2) != 's'
        || value.get_char(3) != 't' || value.get_char(4) != 'o' || value.get_char(5) != 'm'
        || value.get_char(6) != ':' {
        proof {
        if exists|wv2: int, hv2: int, mv2: int| custom_saved_choice(value@, wv2, hv2, mv2) {
            let (wv2, hv2, mv2): (int, int, int) = choose|wv2: int, hv2: int, mv2: int|
                custom_saved_choice(value@, wv2, hv2, mv2);
            let (a, b): (int, int) = choose|a: int, b: int|
                custom_saved_choice_at(value@, a, b, wv2, hv2, mv2);
            assert(value@.take(7) == "custom:"@);
            assert(value@.take(7)[0] == "custom:"@[0] && value@.take(7)[1] == "custom:"@[1]
                && value@.take(7)[2] == "custom:"@[2] && value@.take(7)[3] == "custom:"@[3]
                && value@.take(7)[4] == "custom:"@[4] && value@.take(7)[5] == "custom:"@[5]
                && value@.take(7)[6] == "custom:"@[6]);
            assert(value@[0] == 'c' && value@[1] == 'u' && value@[2] == 's' && value@[3] == 't'
                && value@[4] == 'o' && value@[5] == 'm' && value@[6] == ':');
            assert(false);
        }
        }
        return None;
    }
    proof {
        assert(value@.take(7) =~= "custom:"@);
    }
    // the positions of the two separating colons
    let mut first: usize = 0;
    let mut second: usize = 0;
    let mut colons: usize = 0;
    let mut i: usize = 7;
    while i < len
        invariant
            7 <= i <= len,
            len == value@.len(),
            raw is Some && raw->0 == value,
            !(value@ == "beginner"@ || value@ == "intermediate"@ || value@ == "expert"@),
            colons <= 2,
            colons >= 1 ==> 7 <= first < i && value@[first as int] == ':',
            colons >= 2 ==> first < second < i && value@[second as int] == ':',
            forall|j: int|
                7 <= j < i && #[trigger] value@[j] == ':' ==> (colons >= 1 && j == first) || (
                colons >= 2 && j == second),
        decreases len - i,
    {
        if value.get_char(i) == ':' {
            if colons == 0 {
                first = i;
                colons = 1;
            } else if colons == 1 {
                second = i;
                colons = 2;
            } else {
                proof {
        if exists|wv2: int, hv2: int, mv2: int| custom_saved_choice(value@, wv2, hv2, mv2) {
            let (wv2, hv2, mv2): (int, int, int) = choose|wv2: int, hv2: int, mv2: int|
                custom_saved_choice(value@, wv2, hv2, mv2);
            let (a, b): (int, int) = choose|a: int, b: int|
                custom_saved_choice_at(value@, a, b, wv2, hv2, mv2);
                    lemma_custom_colons(value@, a, b, wv2, hv2, mv2, first as int);
                    lemma_custom_colons(value@, a, b, wv2, hv2, mv2, second as int);
                    lemma_custom_colons(value@, a, b, wv2, hv2, mv2, i as int);
                    assert(false);
                }
                }
                return None;
            }
        }
        i = i + 1;
    }
    if colons != 2 {
        proof {
        if exists|wv2: int, hv2: int, mv2: int| custom_saved_choice(value@, wv2, hv2, mv2) {
            let (wv2, hv2, mv2): (int, int, int) = choose|wv2: int, hv2: int, mv2: int|
                custom_saved_choice(value@, wv2, hv2, mv2);
            let (a, b): (int, int) = choose|a: int, b: int|
                custom_saved_choice_at(value@, a, b, wv2, hv2, mv2);
            assert(value@[a] == ':' && value@[b] == ':');
            assert(false);
        }
        }
        return None;
    }
    if first + 1 >= second || second + 1 >= len {
        proof {
        if exists|wv2: int, hv2: int, mv2: int| custom_saved_choice(value@, wv2, hv2, mv2) {
            let (wv2, hv2, mv2): (int, int, int) = choose|wv2: int, hv2: int, mv2: int|
                custom_saved_choice(value@, wv2, hv2, mv2);
            let (a, b): (int, int) = choose|a: int, b: int|
                custom_saved_choice_at(value@, a, b, wv2, hv2, mv2);
            lemma_pin_colons(value@, a, b, wv2, hv2, mv2, first as int, second as int);
            assert(false);
        }
        }
        return None;
    }
    let w_str = value.substring_char(7, first);
    let h_str = value.substring_char(first + 1, second);
    let m_str = value.substring_char(second + 1, len);
    let wv = match parse_u64(w_str) {
        Some(v) => v,
        None => {
            proof {
        if exists|wv2: int, hv2: int, mv2: int| custom_saved_choice(value@, wv2, hv2, mv2) {
            let (wv2, hv2, mv2): (int, int, int) = choose|wv2: int, hv2: int, mv2: int|
                custom_saved_choice(value@, wv2, hv2, mv2);
            let (a, b): (int, int) = choose|a: int, b: int|
                custom_saved_choice_at(value@, a, b, wv2, hv2, mv2);
                lemma_pin_colons(value@, a, b, wv2, hv2, mv2, first as int, second as int);
                assert(false);
            }
            }
            return None;
        },
    };
    let hv = match parse_u64(h_str) {
        Some(v) => v,
        None => {
            proof {
        if exists|wv2: int, hv2: int, mv2: int| custom_saved_choice(value@, wv2, hv2, mv2) {
            let (wv2, hv2, mv2): (int, int, int) = choose|wv2: int, hv2: int, mv2: int|
                custom_saved_choice(value@, wv2, hv2, mv2);
            let (a, b): (int, int) = choose|a: int, b: int|
                custom_saved_choice_at(value@, a, b, wv2, hv2, mv2);
                lemma_pin_colons(value@, a, b, wv2, hv2, mv2, first as int, second as int);
                assert(false);
            }
            }
            return None;
        },
    };
    let mv = match parse_u64(m_str) {
        Some(v) => v,
        None => {
            proof {
        if exists|wv2: int, hv2: int, mv2: int| custom_saved_choice(value@, wv2, hv2, mv2) {
            let (wv2, hv2, mv2): (int, int, int) = choose|wv2: int, hv2: int, mv2: int|
                custom_saved_choice(value@, wv2, hv2, mv2);
            let (a, b): (int, int) = choose|a: int, b: int|
                custom_saved_choice_at(value@, a, b, wv2, hv2, mv2);
                lemma_pin_colons(value@, a, b, wv2, hv2, mv2, first as int, second as int);
                assert(mv2 < wv2 * hv2);
                assert(wv2 * hv2 <= 2500) by (nonlinear_arith)
                    requires
                        0 <= wv2 <= 50,
                        0 <= hv2 <= 50,
                ;
                assert(false);
            }
            }
            return None;
        },
    };
    if wv > 50 || hv > 50 || mv > 2500 {
        proof {
        if exists|wv2: int, hv2: int, mv2: int| custom_saved_choice(value@, wv2, hv2, mv2) {
            let (wv2, hv2, mv2): (int, int, int) = choose|wv2: int, hv2: int, mv2: int|
                custom_saved_choice(value@, wv2, hv2, mv2);
            let (a, b): (int, int) = choose|a: int, b: int|
                custom_saved_choice_at(value@, a, b, wv2, hv2, mv2);
            lemma_pin_colons(value@, a, b, wv2, hv2, mv2, first as int, second as int);
            assert(wv2 * hv2 <= 2500) by (nonlinear_arith)
                requires
                    0 <= wv2 <= 50,
                    0 <= hv2 <= 50,
            ;
            assert(false);
        }
        }
        return None;
    }
    let settings = match validate_custom(wv as usize, hv as usize, mv as usize) {
        Ok(s) => s,
        Err(_) => {
            proof {
        if exists|wv2: int, hv2: int, mv2: int| custom_saved_choice(value@, wv2, hv2, mv2) {
            let (wv2, hv2, mv2): (int, int, int) = choose|wv2: int, hv2: int, mv2: int|
                custom_saved_choice(value@, wv2, hv2, mv2);
            let (a, b): (int, int) = choose|a: int, b: int|
                custom_saved_choice_at(value@, a, b, wv2, hv2, mv2);
                lemma_pin_colons(value@, a, b, wv2, hv2, mv2, first as int, second as int);
                assert(false);
            }
            }
            return None;
        },
    };
    proof {
        assert(custom_saved_choice_at(
            value@,
            first as int,
            second as int,
            wv as int,
            hv as int,
            mv as int,
        ));
    }
    // the best-time key renders the numbers back as
    // "custom-{width}x{height}-{mines}"
    let mut best_key = "custom-".to_owned();
    best_key.append(wv.to_string().as_str());
    best_key.append("x");
    best_key.append(hv.to_string().as_str());
    best_key.append("-");
    best_key.append(mv.to_string().as_str());
    Some(DifficultyChoice { settings, best_key, storage_value: value.to_owned() })
}

/// The style class of a numbered cell: `"n1"` through `"n7"` for hints 1 to
/// 7, and `"n8"` for anything higher.
pub fn number_class(adjacent: u8) -> (r: &'static str)
    ensures
        adjacent == 1 ==> r@ == "n1"@,
        adjacent == 2 ==> r@ == "n2"@,
        adjacent == 3 ==> r@ == "n3"@,
        adjacent == 4 ==> r@ == "n4"@,
        adjacent == 5 ==> r@ == "n5"@,
        adjacent == 6 ==> r@ == "n6"@,
        adjacent == 7 ==> r@ == "n7"@,
        adjacent == 0 || adjacent >= 8 ==> r@ == "n8"@,
{
    match adjacent {
        1 => "n1",
        2 => "n2",
        3 => "n3",
        4 => "n4",
        5 => "n5",
        6 => "n6",
        7 => "n7",
        _ => "n8",
    }
}

} // verus!

