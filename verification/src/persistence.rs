//! Persistence of the player's preferences and best times in the browser's
//! localStorage.
//!
//! Everything the environment answers is treated as unknown: the storage
//! calls sit behind trusted wrappers that promise nothing about the values
//! coming back, and the logic around them — key construction and the decimal
//! parsing of stored best times — is verified. `parse_u64` carries the exact
//! contract, so whatever string the environment hands back is decoded
//! correctly.

use vstd::prelude::*;
use vstd::string::StrSliceExecFns;
use vstd::string::StringExecFns;

verus! {

#[verifier::external_type_specification]
#[verifier::external_body]
pub struct ExWindow(web_sys::Window);

#[verifier::external_type_specification]
#[verifier::external_body]
pub struct ExStorage(web_sys::Storage);

/// Relies on web_sys::window: the browser's global window object. Whether
/// one exists depends on the environment, so nothing is promised of it.
#[verifier::external_body]
fn browser_window() -> Option<web_sys::Window> {
    web_sys::window()
}

/// Relies on web_sys::Window::local_storage: the window's localStorage area,
/// where the browser grants access to one.
#[verifier::external_body]
fn window_local_storage(window: &web_sys::Window) -> Option<web_sys::Storage> {
    window.local_storage().ok().flatten()
}

/// Relies on web_sys::Storage::get_item: the value stored under `key`. What
/// comes back depends on what the environment has stored, so nothing is
/// promised of it.
#[verifier::external_body]
fn storage_get_item(store: &web_sys::Storage, key: &str) -> Option<String> {
    store.get_item(key).ok().flatten()
}

/// Relies on web_sys::Storage::set_item: stores `value` under `key`. The
/// browser may refuse (for instance over quota); the outcome is ignored, as
/// preferences are best-effort.
#[verifier::external_body]
fn storage_set_item(store: &web_sys::Storage, key: &str, value: &str) {
    let _ = store.set_item(key, value);
}

/// The browser's localStorage, where the environment provides one.
fn storage() -> Option<web_sys::Storage> {
    match browser_window() {
        Some(window) => window_local_storage(&window),
        None => None,
    }
}

/// Whether `c` is a decimal digit.
pub open spec fn is_dec_digit(c: char) -> bool {
    48 <= c as int <= 57
}

/// The numeric value of the digit `c`.
pub open spec fn digit_val(c: char) -> int {
    c as int - 48
}

/// The number written in decimal as `s`.
pub open spec fn dec_value(s: Seq<char>) -> int
    decreases s.len(),
{
    if s.len() == 0 {
        0
    } else {
        dec_value(s.drop_last()) * 10 + digit_val(s.last())
    }
}

/// Whether every character of `s` is a decimal digit.
pub open spec fn all_dec_digits(s: Seq<char>) -> bool {
    forall|i: int| 0 <= i < s.len() ==> is_dec_digit(#[trigger] s[i])
}

proof fn lemma_dec_value_nonneg(s: Seq<char>)
    requires
        all_dec_digits(s),
    ensures
        dec_value(s) >= 0,
    decreases s.len(),
{
    if s.len() > 0 {
        assert(all_dec_digits(s.drop_last()));
        lemma_dec_value_nonneg(s.drop_last());
    }
}

/// A decimal number is at least the number written by any prefix of it.
proof fn lemma_dec_value_prefix_le(s: Seq<char>, j: int)
    requires
        all_dec_digits(s),
        0 <= j <= s.len(),
    ensures
        dec_value(s.take(j)) <= dec_value(s),
    decreases s.len() - j,
{
    if j < s.len() {
        lemma_dec_value_prefix_le(s, j + 1);
        assert(s.take(j + 1).drop_last() =~= s.take(j));
        assert(all_dec_digits(s.take(j)));
        lemma_dec_value_nonneg(s.take(j));
    } else {
        assert(s.take(j) =~= s);
    }
}

/// Parses a decimal `u64`: returns the written number exactly when `s` is a
/// nonempty string of decimal digits whose value fits in a `u64`, and
/// nothing otherwise.
pub fn parse_u64(s: &str) -> (r: Option<u64>)
    ensures
        r is Some <==> s@.len() > 0 && all_dec_digits(s@) && dec_value(s@) <= u64::MAX,
        r is Some ==> r->0 as int == dec_value(s@),
{
    let len = s.unicode_len();
    if len == 0 {
        return None;
    }
    let mut acc: u64 = 0;
    let mut i: usize = 0;
    while i < len
        invariant
            i <= len,
            len == s@.len(),
            forall|j: int| 0 <= j < i ==> is_dec_digit(#[trigger] s@[j]),
            acc as int == dec_value(s@.take(i as int)),
        decreases len - i,
    {
        let c = s.get_char(i);
        let d = c as u32;
        if d < 48 || d > 57 {
            return None;
        }
        let dv = (d - 48) as u64;
        proof {
            assert(s@.take(i + 1).drop_last() =~= s@.take(i as int));
            assert(s@.take(i + 1).last() == s@[i as int]);
        }
        if acc > 1844674407370955161u64 || (acc == 1844674407370955161u64 && dv > 5) {
            // the digits seen so far already overflow a u64, and further
            // digits only grow the value
            proof {
                assert(dec_value(s@.take(i + 1)) > u64::MAX);
                if all_dec_digits(s@) {
                    lemma_dec_value_prefix_le(s@, i + 1);
                }
            }
            return None;
        }
        acc = acc * 10 + dv;
        i = i + 1;
    }
    proof {
        assert(s@.take(len as int) =~= s@);
    }
    Some(acc)
}

/// The storage key under which the best time for `difficulty_key` is kept.
fn best_time_key(difficulty_key: &str) -> (key: String)
    ensures
        key@ == "ms.best."@ + difficulty_key@,
{
    let mut key = "ms.best.".to_owned();
    key.append(difficulty_key);
    key
}

/// The saved difficulty selection, if the environment has one stored.
pub fn load_difficulty() -> Option<String> {
    match storage() {
        Some(store) => storage_get_item(&store, "ms.difficulty"),
        None => None,
    }
}

/// Stores the difficulty selection, best-effort.
pub fn save_difficulty(value: &str) {
    if let Some(store) = storage() {
        storage_set_item(&store, "ms.difficulty", value);
    }
}

/// The saved best time in seconds for `difficulty_key`: present exactly when
/// the environment stores a nonempty all-digit value under the difficulty's
/// key that fits a `u64`, decoded by `parse_u64`.
pub fn load_best_time_seconds(difficulty_key: &str) -> Option<u64> {
    let key = best_time_key(difficulty_key);
    let store = match storage() {
        Some(s) => s,
        None => { return None; },
    };
    let raw = match storage_get_item(&store, key.as_str()) {
        Some(v) => v,
        None => { return None; },
    };
    parse_u64(raw.as_str())
}

/// Stores the best time in seconds for `difficulty_key`, best-effort.
pub fn save_best_time_seconds(difficulty_key: &str, seconds: u64) {
    let key = best_time_key(difficulty_key);
    if let Some(store) = storage() {
        let rendered = seconds.to_string();
        storage_set_item(&store, key.as_str(), rendered.as_str());
    }
}

/// The saved theme name, if the environment has one stored.
pub fn load_theme() -> Option<String> {
    match storage() {
        Some(store) => storage_get_item(&store, "ms.theme"),
        None => None,
    }
}

/// Stores the theme name, best-effort.
pub fn save_theme(value: &str) {
    if let Some(store) = storage() {
        storage_set_item(&store, "ms.theme", value);
    }
}

} // verus!
