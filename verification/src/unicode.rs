//! Trusted boundary to Unicode-aware operations, and verified helpers built
//! on top of it.
//!
//! Unicode character properties and normalization are functions of their
//! input alone, but their value tables are far too large to restate here.
//! Each gets an uninterpreted name; the wrappers below tie the library to the
//! real implementations.  Everything else in this module is verified against
//! those names.

use vstd::prelude::*;
use unicode_normalization::UnicodeNormalization;

use crate::text::{chars_of, string_from_chars, is_blank};

verus! {

/// The canonical composition (NFC) of a character sequence.
pub uninterp spec fn nfc_of(s: Seq<char>) -> Seq<char>;

/// Relies on `unicode_normalization`'s `nfc` iterator over `&str`: it yields
/// the canonical composition of the input, a function of the characters alone.
#[verifier::external_body]
pub fn nfc_normalize(s: &str) -> (r: String)
    ensures
        r@ == nfc_of(s@),
{
    s.nfc().collect()
}

/// The Unicode lowercase form of a character sequence.
pub uninterp spec fn lower_of(s: Seq<char>) -> Seq<char>;

/// Relies on `str::to_lowercase`: the result depends on the characters alone.
#[verifier::external_body]
pub fn lowercase(s: &str) -> (r: String)
    ensures
        r@ == lower_of(s@),
{
    s.to_lowercase()
}

/// The Unicode `Alphabetic` property.
pub uninterp spec fn char_alphabetic(c: char) -> bool;

/// Relies on `char::is_alphabetic`; within ASCII it holds exactly for the
/// letters, as the documentation states.
#[verifier::external_body]
pub fn is_alphabetic_char(c: char) -> (r: bool)
    ensures
        r == char_alphabetic(c),
        c as u32 <= 127 ==> r == (65 <= c as u32 && c as u32 <= 90 || 97 <= c as u32 && c as u32
            <= 122),
{
    c.is_alphabetic()
}

/// The Unicode `White_Space` property.
pub uninterp spec fn char_whitespace(c: char) -> bool;

/// Relies on `char::is_whitespace`; within ASCII it holds exactly for space,
/// tab, line feed, vertical tab, form feed and carriage return, as the
/// documentation states.
#[verifier::external_body]
pub fn is_whitespace_char(c: char) -> (r: bool)
    ensures
        r == char_whitespace(c),
        c as u32 <= 127 ==> r == is_blank(c),
{
    c.is_whitespace()
}

/// The Unicode `Lowercase` property.
pub uninterp spec fn char_lower(c: char) -> bool;

/// Relies on `char::is_lowercase`.
#[verifier::external_body]
pub fn is_lowercase_char(c: char) -> (r: bool)
    ensures
        r == char_lower(c),
{
    c.is_lowercase()
}

/// The Unicode `Uppercase` property.
pub uninterp spec fn char_upper(c: char) -> bool;

/// Relies on `char::is_uppercase`.
#[verifier::external_body]
pub fn is_uppercase_char(c: char) -> (r: bool)
    ensures
        r == char_upper(c),
{
    c.is_uppercase()
}

/// First position at or after `i` whose character is not Unicode whitespace.
pub open spec fn scan_ws(s: Seq<char>, i: int) -> int
    decreases s.len() - i,
{
    if i < 0 || i >= s.len() {
        s.len() as int
    } else if char_whitespace(s[i]) {
        scan_ws(s, i + 1)
    } else {
        i
    }
}

/// End of the Unicode-whitespace run ending just before `i`, scanning back.
pub open spec fn scan_ws_back(s: Seq<char>, i: int) -> int
    decreases i,
{
    if i <= 0 || i > s.len() {
        0
    } else if char_whitespace(s[i - 1]) {
        scan_ws_back(s, i - 1)
    } else {
        i
    }
}

/// What `str::trim` leaves: the input without its leading and trailing
/// Unicode whitespace.
pub open spec fn trim_spec(s: Seq<char>) -> Seq<char> {
    let lo = scan_ws(s, 0);
    let hi = scan_ws_back(s, s.len() as int);
    if lo <= hi {
        s.subrange(lo, hi)
    } else {
        Seq::empty()
    }
}

pub fn scan_ws_exec(t: &[char], i: usize) -> (r: usize)
    requires
        i <= t.len(),
    ensures
        r == scan_ws(t@, i as int),
        i <= r <= t.len(),
{
    let mut j: usize = i;
    while j < t.len()
        invariant
            i <= j <= t.len(),
            scan_ws(t@, i as int) == scan_ws(t@, j as int),
        decreases t.len() - j,
    {
        if !is_whitespace_char(t[j]) {
            return j;
        }
        j = j + 1;
    }
    j
}

pub fn scan_ws_back_exec(t: &[char], i: usize) -> (r: usize)
    requires
        i <= t.len(),
    ensures
        r == scan_ws_back(t@, i as int),
        r <= i,
{
    let mut j: usize = i;
    while j > 0
        invariant
            j <= i <= t.len(),
            scan_ws_back(t@, i as int) == scan_ws_back(t@, j as int),
        decreases j,
    {
        if !is_whitespace_char(t[j - 1]) {
            return j;
        }
        j = j - 1;
    }
    j
}

/// Trim Unicode whitespace from both ends of a character slice.
pub fn trim_chars(t: &[char]) -> (r: Vec<char>)
    ensures
        r@ == trim_spec(t@),
{
    let lo = scan_ws_exec(t, 0);
    let hi = scan_ws_back_exec(t, t.len());
    if lo <= hi {
        crate::text::slice_to_vec(t, lo, hi)
    } else {
        Vec::new()
    }
}

/// The Unicode lowercase form of a character slice.
pub fn lower_chars(t: &[char]) -> (r: Vec<char>)
    ensures
        r@ == lower_of(t@),
{
    let s = string_from_chars(t);
    let l = lowercase(s.as_str());
    chars_of(l.as_str())
}

/// The number of whitespace-separated words, as `str::split_whitespace`
/// counts them: `prev_ws` records whether the previous character (or the
/// start of the text) was whitespace.
pub open spec fn word_count_rec(s: Seq<char>, i: int, prev_ws: bool) -> nat
    decreases s.len() - i,
{
    if i < 0 || i >= s.len() {
        0
    } else {
        (if !char_whitespace(s[i]) && prev_ws {
            1nat
        } else {
            0nat
        }) + word_count_rec(s, i + 1, char_whitespace(s[i]))
    }
}

pub open spec fn word_count_spec(s: Seq<char>) -> nat {
    word_count_rec(s, 0, true)
}

pub fn word_count(t: &[char]) -> (r: usize)
    ensures
        r as nat == word_count_spec(t@),
{
    let mut acc: usize = 0;
    let mut prev_ws = true;
    let mut i: usize = 0;
    proof {
        lemma_word_count_bound(t@, 0, true);
    }
    while i < t.len()
        invariant
            0 <= i <= t.len(),
            acc + word_count_rec(t@, i as int, prev_ws) == word_count_spec(t@),
            acc <= i,
        decreases t.len() - i,
    {
        let ws = is_whitespace_char(t[i]);
        if !ws && prev_ws {
            acc = acc + 1;
        }
        prev_ws = ws;
        i = i + 1;
    }
    acc
}

proof fn lemma_word_count_bound(s: Seq<char>, i: int, prev_ws: bool)
    requires
        0 <= i <= s.len(),
    ensures
        word_count_rec(s, i, prev_ws) <= s.len() - i,
    decreases s.len() - i,
{
    if i < s.len() {
        lemma_word_count_bound(s, i + 1, char_whitespace(s[i]));
    }
}

/// Collapse internal whitespace runs to single spaces and drop outer ones,
/// as splitting on whitespace and joining with one space does.  `emitted`
/// records whether a word character has been produced; `prev_ws` whether the
/// previous character was whitespace.
pub open spec fn squeeze_ws_rec(s: Seq<char>, i: int, emitted: bool, prev_ws: bool) -> Seq<char>
    decreases s.len() - i,
{
    if i < 0 || i >= s.len() {
        Seq::empty()
    } else if char_whitespace(s[i]) {
        squeeze_ws_rec(s, i + 1, emitted, true)
    } else {
        (if emitted && prev_ws {
            seq![' ', s[i]]
        } else {
            seq![s[i]]
        }) + squeeze_ws_rec(s, i + 1, true, false)
    }
}

pub open spec fn squeeze_ws_spec(s: Seq<char>) -> Seq<char> {
    squeeze_ws_rec(s, 0, false, true)
}

/// Normalize a header or label: the words of `s`, joined by single spaces.
pub fn squeeze_ws(t: &[char]) -> (r: Vec<char>)
    ensures
        r@ == squeeze_ws_spec(t@),
{
    let mut out: Vec<char> = Vec::new();
    let mut emitted = false;
    let mut prev_ws = true;
    let mut i: usize = 0;
    while i < t.len()
        invariant
            0 <= i <= t.len(),
            out@ + squeeze_ws_rec(t@, i as int, emitted, prev_ws) == squeeze_ws_spec(t@),
        decreases t.len() - i,
    {
        let ws = is_whitespace_char(t[i]);
        if ws {
            prev_ws = true;
        } else {
            if emitted && prev_ws {
                out.push(' ');
                out.push(t[i]);
                assert(out@ + squeeze_ws_rec(t@, i + 1, true, false) =~= squeeze_ws_spec(t@));
            } else {
                out.push(t[i]);
                assert(out@ + squeeze_ws_rec(t@, i + 1, true, false) =~= squeeze_ws_spec(t@));
            }
            emitted = true;
            prev_ws = false;
        }
        i = i + 1;
    }
    assert(out@ =~= squeeze_ws_spec(t@));
    out
}

} // verus!
